//! Text search over the graph: the terms of node texts for ranked search,
//! and line-by-line substring search over file contents.

use vstd::prelude::*;
use crate::graph::KnowledgeGraph;
use crate::text::{chars_of, push_char, push_str};
use crate::types::{GraphNode, node_file_path};

verus! {

/// What `str::to_lowercase` gives for a text: its Unicode lowercase form.
pub uninterp spec fn lowercase(s: Seq<char>) -> Seq<char>;

/// What `char::is_alphanumeric` says of a character (Unicode `Alphabetic`
/// or `Numeric`).
pub uninterp spec fn alphanumeric(c: char) -> bool;

/// `str::to_lowercase`.
#[verifier::external_body]
pub(crate) fn to_lower(s: &str) -> (r: String)
    ensures
        r@ == lowercase(s@),
{
    s.to_lowercase()
}

/// `char::is_alphanumeric`.
#[verifier::external_body]
pub(crate) fn is_alphanumeric(c: char) -> (r: bool)
    ensures
        r == alphanumeric(c),
{
    c.is_alphanumeric()
}

/// Characters that belong to terms: alphanumeric ones and `_`.
pub open spec fn word_char(c: char) -> bool {
    alphanumeric(c) || c == '_'
}

/// The pieces of `s` between non-word characters, in order; `n` separators
/// give `n + 1` pieces, some of them possibly empty.
pub open spec fn word_pieces(s: Seq<char>) -> Seq<Seq<char>>
    decreases s.len(),
{
    if s.len() == 0 {
        seq![Seq::<char>::empty()]
    } else {
        let p = word_pieces(s.drop_last());
        if word_char(s.last()) {
            p.update(p.len() - 1, p.last().push(s.last()))
        } else {
            p.push(Seq::<char>::empty())
        }
    }
}

/// Bytes of the UTF-8 encoding of a character.
pub open spec fn char_width(c: char) -> nat {
    if (c as u32) <= 0x7F {
        1
    } else if (c as u32) <= 0x7FF {
        2
    } else if (c as u32) <= 0xFFFF {
        3
    } else {
        4
    }
}

/// Bytes of the UTF-8 encoding of a text.
pub open spec fn utf8_len(s: Seq<char>) -> nat
    decreases s.len(),
{
    if s.len() == 0 {
        0
    } else {
        utf8_len(s.drop_last()) + char_width(s.last())
    }
}

/// The pieces of `s` between non-word characters that take more than one
/// byte, in order.
pub open spec fn words_of(s: Seq<char>) -> Seq<Seq<char>> {
    word_pieces(s).filter(|t: Seq<char>| utf8_len(t) > 1)
}

/// The terms of a text: the pieces of its lowercase form that take more
/// than one byte.
pub open spec fn terms_of(text: Seq<char>) -> Seq<Seq<char>> {
    words_of(lowercase(text))
}

proof fn lemma_word_pieces_nonempty(s: Seq<char>)
    ensures
        word_pieces(s).len() >= 1,
    decreases s.len(),
{
    if s.len() > 0 {
        lemma_word_pieces_nonempty(s.drop_last());
    }
}

/// Bytes of the UTF-8 encoding of a character.
pub fn utf8_width(c: char) -> (r: usize)
    ensures
        r == char_width(c),
{
    let u = c as u32;
    if u <= 0x7F {
        1
    } else if u <= 0x7FF {
        2
    } else if u <= 0xFFFF {
        3
    } else {
        4
    }
}

/// Splits a text into search terms (see `terms_of`).
pub fn tokenize(text: &str) -> (r: Vec<String>)
    ensures
        r@.map_values(|s: String| s@) == terms_of(text@),
{
    let lower = to_lower(text);
    split_words(lower.as_str())
}

/// Splits an already lowered text into its words (see `words_of`).
#[verifier::spinoff_prover]
pub fn split_words(lowered: &str) -> (r: Vec<String>)
    ensures
        r@.map_values(|s: String| s@) == words_of(lowered@),
{
    let ghost keep = |t: Seq<char>| utf8_len(t) > 1;
    let cs = chars_of(lowered);
    let ghost s = cs@;
    let mut out: Vec<String> = Vec::new();
    let mut current = String::new();
    let mut width: usize = 0;
    let mut i: usize = 0;
    proof {
        reveal(Seq::filter);
        assert(s.take(0) =~= Seq::<char>::empty());
        assert(word_pieces(s.take(0)).drop_last() =~= Seq::<Seq<char>>::empty());
    }
    while i < cs.len()
        invariant
            cs@ == s,
            s == lowered@,
            0 <= i <= s.len(),
            keep == |t: Seq<char>| utf8_len(t) > 1,
            word_pieces(s.take(i as int)).len() >= 1,
            current@ == word_pieces(s.take(i as int)).last(),
            width == if utf8_len(current@) > 2 { 2 } else { utf8_len(current@) },
            out@.map_values(|x: String| x@) == word_pieces(s.take(i as int)).drop_last().filter(keep),
        decreases s.len() - i,
    {
        let c = cs[i];
        let ghost p = word_pieces(s.take(i as int));
        proof {
            assert(s.take(i + 1).drop_last() =~= s.take(i as int));
            assert(s.take(i + 1).last() == c);
            lemma_word_pieces_nonempty(s.take(i as int));
        }
        if is_alphanumeric(c) || c == '_' {
            push_char(&mut current, c);
            let w = utf8_width(c);
            width = if width + w > 2 { 2 } else { width + w };
            proof {
                let q = word_pieces(s.take(i + 1));
                assert(q == p.update(p.len() - 1, p.last().push(c)));
                assert(q.drop_last() =~= p.drop_last());
                assert(current@.drop_last() =~= p.last());
            }
        } else {
            proof {
                let q = word_pieces(s.take(i + 1));
                assert(q == p.push(Seq::<char>::empty()));
                assert(q.drop_last() =~= p);
                assert(p =~= p.drop_last().push(p.last()));
                reveal(Seq::filter);
                assert(p.filter(keep) == if keep(p.last()) { p.drop_last().filter(keep).push(p.last()) } else { p.drop_last().filter(keep) });
            }
            if width > 1 {
                let ghost before = out@;
                out.push(current);
                proof {
                    assert(out@.map_values(|x: String| x@) =~= before.map_values(|x: String| x@).push(p.last()));
                }
            }
            current = String::new();
            width = 0;
        }
        i = i + 1;
    }
    proof {
        assert(s.take(s.len() as int) =~= s);
        let p = word_pieces(s);
        assert(p =~= p.drop_last().push(p.last()));
        reveal(Seq::filter);
        assert(p.filter(keep) == if keep(p.last()) { p.drop_last().filter(keep).push(p.last()) } else { p.drop_last().filter(keep) });
    }
    if width > 1 {
        let ghost before = out@;
        out.push(current);
        proof {
            assert(out@.map_values(|x: String| x@) =~= before.map_values(|x: String| x@).push(word_pieces(s).last()));
        }
    }
    out
}


/// A searchable document: one per graph node.
#[derive(Debug)]
pub struct IndexedDoc {
    pub node_id: String,
    pub terms: Vec<String>,
    pub snippet: String,
}

/// The term index of a graph: a document per node, how many documents hold
/// each term, and the number of documents. The ranking itself computes on
/// floating-point numbers and stands outside this library.
#[derive(Debug)]
pub struct BM25Index {
    pub docs: Vec<IndexedDoc>,
    /// Each term once, with the number of documents whose terms hold it.
    pub df: Vec<(String, usize)>,
    pub n: usize,
}

/// The text a node is searched by: its name, followed by a space and its
/// file when it records one.
pub open spec fn doc_text(n: GraphNode) -> Seq<char> {
    match node_file_path(n) {
        Some(fp) => n.name@ + " "@ + fp,
        None => n.name@,
    }
}

/// Whether the terms of a document hold `t`.
pub open spec fn doc_has(d: IndexedDoc, t: Seq<char>) -> bool {
    exists|k: int| 0 <= k < d.terms@.len() && #[trigger] d.terms@[k]@ == t
}

/// The number of documents whose terms hold `t`.
pub open spec fn doc_count(docs: Seq<IndexedDoc>, t: Seq<char>) -> nat {
    docs.filter(|d: IndexedDoc| doc_has(d, t)).len()
}

/// The documents describe the nodes, in order.
pub open spec fn docs_of_nodes(docs: Seq<IndexedDoc>, nodes: Seq<GraphNode>) -> bool {
    &&& docs.len() == nodes.len()
    &&& forall|i: int| 0 <= i < nodes.len() ==> {
        &&& (#[trigger] docs[i]).node_id@ == nodes[i].id@
        &&& docs[i].snippet@ == doc_text(nodes[i])
        &&& docs[i].terms@.map_values(|x: String| x@) == terms_of(doc_text(nodes[i]))
    }
}

/// Whether some entry of `df` has key `t`.
pub open spec fn key_in(df: Seq<(String, usize)>, t: Seq<char>) -> bool {
    exists|j: int| 0 <= j < df.len() && df[j].0@ == t
}

/// The count that `df` records for `t`: that of its first entry with key
/// `t`, or 0 when there is none.
pub open spec fn recorded_count(df: Seq<(String, usize)>, t: Seq<char>) -> nat
    decreases df.len(),
{
    if df.len() == 0 {
        0
    } else if df[0].0@ == t {
        df[0].1 as nat
    } else {
        recorded_count(df.drop_first(), t)
    }
}

proof fn lemma_recorded_count(df: Seq<(String, usize)>, t: Seq<char>, j: int)
    requires
        0 <= j < df.len(),
        df[j].0@ == t,
        forall|q: int| 0 <= q < j ==> df[q].0@ != t,
    ensures
        recorded_count(df, t) == df[j].1,
    decreases j,
{
    if j > 0 {
        lemma_recorded_count(df.drop_first(), t, j - 1);
    }
}

proof fn lemma_recorded_count_absent(df: Seq<(String, usize)>, t: Seq<char>)
    requires
        forall|q: int| 0 <= q < df.len() ==> df[q].0@ != t,
    ensures
        recorded_count(df, t) == 0,
    decreases df.len(),
{
    if df.len() > 0 {
        lemma_recorded_count_absent(df.drop_first(), t);
    }
}

/// The document frequencies: keys distinct, each with its count, each key
/// a term of some document (its count is not 0), every term of a document
/// present.
pub open spec fn df_ok(df: Seq<(String, usize)>, docs: Seq<IndexedDoc>) -> bool {
    &&& forall|a: int, b: int| 0 <= a < df.len() && 0 <= b < df.len() && a != b ==> df[a].0@ != df[b].0@
    &&& forall|j: int| 0 <= j < df.len() ==> (#[trigger] df[j]).1 == doc_count(docs, df[j].0@)
    &&& forall|j: int| 0 <= j < df.len() ==> (#[trigger] df[j]).1 > 0
    &&& forall|i: int, k: int| 0 <= i < docs.len() && 0 <= k < docs[i].terms@.len()
        ==> key_in(df, (#[trigger] docs[i].terms@[k])@)
}

fn position_in(df: &Vec<(String, usize)>, t: &String) -> (r: Option<usize>)
    ensures
        match r {
            Some(j) => j < df@.len() && df@[j as int].0@ == t@ && forall|q: int| 0 <= q < j ==> df@[q].0@ != t@,
            None => forall|j: int| 0 <= j < df@.len() ==> df@[j].0@ != t@,
        },
{
    let mut j: usize = 0;
    while j < df.len()
        invariant
            0 <= j <= df@.len(),
            forall|q: int| 0 <= q < j ==> df@[q].0@ != t@,
        decreases df@.len() - j,
    {
        if df[j].0 == *t {
            return Some(j);
        }
        j = j + 1;
    }
    None
}

/// The searchable document of a node.
fn doc_of(node: &GraphNode) -> (d: IndexedDoc)
    ensures
        d.node_id@ == node.id@,
        d.snippet@ == doc_text(*node),
        d.terms@.map_values(|x: String| x@) == terms_of(doc_text(*node)),
{
    let mut text = node.name.clone();
    match node.file_path() {
        Some(fp) => {
            push_str(&mut text, " ");
            push_str(&mut text, fp.as_str());
        },
        None => {},
    }
    let snippet = text.clone();
    let terms = tokenize(text.as_str());
    IndexedDoc { node_id: node.id.clone(), terms, snippet }
}

/// Whether `k` is the first position of its term in `terms`.
fn first_occurrence(terms: &Vec<String>, k: usize) -> (r: bool)
    requires
        k < terms@.len(),
    ensures
        r == forall|q: int| 0 <= q < k ==> terms@[q]@ != terms@[k as int]@,
{
    let mut q: usize = 0;
    while q < k
        invariant
            0 <= q <= k < terms@.len(),
            forall|x: int| 0 <= x < q ==> terms@[x]@ != terms@[k as int]@,
        decreases k - q,
    {
        if terms[q] == terms[k] {
            return false;
        }
        q = q + 1;
    }
    true
}

/// Builds the term index of a graph: one document per node, in node order.
pub fn index_graph(graph: &KnowledgeGraph) -> (index: BM25Index)
    ensures
        docs_of_nodes(index.docs@, graph.node_list()),
        index.wf(),
{
    let nodes = graph.nodes();
    let mut docs: Vec<IndexedDoc> = Vec::new();
    let mut i: usize = 0;
    while i < nodes.len()
        invariant
            nodes@ == graph.node_list(),
            0 <= i <= nodes@.len(),
            docs@.len() == i,
            forall|j: int| 0 <= j < i ==> {
                &&& (#[trigger] docs@[j]).node_id@ == nodes@[j].id@
                &&& docs@[j].snippet@ == doc_text(nodes@[j])
                &&& docs@[j].terms@.map_values(|x: String| x@) == terms_of(doc_text(nodes@[j]))
            },
        decreases nodes@.len() - i,
    {
        docs.push(doc_of(&nodes[i]));
        i = i + 1;
    }
    let df = document_frequencies(&docs);
    let n = docs.len();
    BM25Index { docs, df, n }
}

proof fn lemma_doc_count_step(docs: Seq<IndexedDoc>, t: Seq<char>, i: int)
    requires
        0 <= i < docs.len(),
    ensures
        doc_count(docs.take(i + 1), t) == doc_count(docs.take(i), t) + if doc_has(docs[i], t) { 1int } else { 0int },
        doc_count(docs.take(i), t) <= i,
{
    crate::graph::lemma_filter_step(docs, |d: IndexedDoc| doc_has(d, t), i);
    docs.take(i).lemma_filter_len(|d: IndexedDoc| doc_has(d, t));
}

/// Whether one of the first `k` terms is `t`.
spec fn seen(terms: Seq<String>, k: int, t: Seq<char>) -> bool {
    exists|q: int| 0 <= q < k && terms[q]@ == t
}

/// A document that holds a term is counted for it.
proof fn lemma_doc_count_positive(docs: Seq<IndexedDoc>, x: int, t: Seq<char>)
    requires
        0 <= x < docs.len(),
        doc_has(docs[x], t),
    ensures
        doc_count(docs, t) > 0,
{
    let p = |d: IndexedDoc| doc_has(d, t);
    docs.filter_lemma(p);
    assert(docs.filter(p).contains(docs[x]));
}

/// The number of documents holding each term of some document.
#[verifier::spinoff_prover]
fn document_frequencies(docs: &Vec<IndexedDoc>) -> (df: Vec<(String, usize)>)
    ensures
        df_ok(df@, docs@),
{
    let n = docs.len();
    let mut df: Vec<(String, usize)> = Vec::new();
    let mut i: usize = 0;
    proof {
        assert forall|t: Seq<char>| #[trigger] doc_count(docs@.take(0), t) == 0 by {
            reveal(Seq::filter);
            assert(docs@.take(0) =~= Seq::<IndexedDoc>::empty());
        }
    }
    while i < n
        invariant
            n == docs@.len(),
            0 <= i <= n,
            forall|a: int, b: int| 0 <= a < df@.len() && 0 <= b < df@.len() && a != b ==> df@[a].0@ != df@[b].0@,
            forall|j: int| 0 <= j < df@.len() ==> (#[trigger] df@[j]).1 == doc_count(docs@.take(i as int), df@[j].0@),
            forall|t: Seq<char>| #[trigger] doc_count(docs@.take(i as int), t) > 0 ==> key_in(df@, t),
            forall|j: int| 0 <= j < df@.len() ==> (#[trigger] df@[j]).1 > 0,
        decreases n - i,
    {
        let terms = &docs[i].terms;
        let ghost d = docs@[i as int];
        let mut k: usize = 0;
        proof {
            assert forall|t: Seq<char>| #[trigger] doc_count(docs@.take(i as int), t) <= i by {
                lemma_doc_count_step(docs@, t, i as int);
            }
        }
        while k < terms.len()
            invariant
                n == docs@.len(),
                0 <= i < n,
                terms@ == d.terms@,
                d == docs@[i as int],
                0 <= k <= terms@.len(),
                forall|a: int, b: int| 0 <= a < df@.len() && 0 <= b < df@.len() && a != b ==> df@[a].0@ != df@[b].0@,
                forall|j: int| 0 <= j < df@.len() ==> (#[trigger] df@[j]).1 == doc_count(docs@.take(i as int), df@[j].0@)
                    + if seen(terms@, k as int, df@[j].0@) { 1int } else { 0int },
                forall|t: Seq<char>| #[trigger] doc_count(docs@.take(i as int), t) > 0 ==> key_in(df@, t),
                forall|q: int| 0 <= q < k ==> key_in(df@, (#[trigger] terms@[q])@),
                forall|t: Seq<char>| #[trigger] doc_count(docs@.take(i as int), t) <= i,
                forall|j: int| 0 <= j < df@.len() ==> (#[trigger] df@[j]).1 > 0,
            decreases terms@.len() - k,
        {
            let ghost before = df@;
            let ghost tk = terms@[k as int]@;
            if first_occurrence(terms, k) {
                match position_in(&df, &terms[k]) {
                    Some(j) => {
                        let key = df[j].0.clone();
                        let v = df[j].1;
                        proof {
                            assert(!seen(terms@, k as int, before[j as int].0@));
                            assert(v == doc_count(docs@.take(i as int), before[j as int].0@));
                        }
                        df.set(j, (key, v + 1));
                        proof { assert(df@[j as int].0@ == tk); }
                    },
                    None => {
                        proof {
                            if doc_count(docs@.take(i as int), tk) > 0 {
                                let j0 = choose|j: int| 0 <= j < before.len() && before[j].0@ == tk;
                                assert(false);
                            }
                        }
                        df.push((terms[k].clone(), 1));
                        proof { assert(df@[before.len() as int].0@ == tk); }
                    },
                }
            } else {
                proof {
                    let q0 = choose|q: int| 0 <= q < k && terms@[q]@ == tk;
                    assert(terms@[q0]@ == tk);
                    assert(key_in(before, terms@[q0]@));
                }
            }
            proof {
                assert(key_in(df@, tk));
                assert forall|t: Seq<char>| key_in(before, t) implies key_in(df@, t) by {
                    let j0 = choose|j: int| 0 <= j < before.len() && before[j].0@ == t;
                    assert(df@[j0].0@ == t);
                }
                assert forall|t: Seq<char>| #![auto] seen(terms@, k + 1, t) == (seen(terms@, k as int, t) || t == tk) by {
                    if seen(terms@, k + 1, t) && t != tk {
                        let q0 = choose|q: int| 0 <= q < k + 1 && terms@[q]@ == t;
                        assert(q0 < k);
                    }
                    if t == tk {
                        assert(terms@[k as int]@ == t);
                    }
                }
                assert forall|j: int| 0 <= j < df@.len() implies (#[trigger] df@[j]).1 == doc_count(docs@.take(i as int), df@[j].0@)
                    + if seen(terms@, k + 1, df@[j].0@) { 1int } else { 0int } by {
                    if j < before.len() {
                        assert(df@[j].0@ == before[j].0@);
                    }
                }
                assert forall|j: int| 0 <= j < df@.len() implies (#[trigger] df@[j]).1 > 0 by {
                    if j < before.len() && df@[j] != before[j] {
                        assert(df@[j].0@ == tk);
                    }
                }
                assert forall|q: int| 0 <= q < k + 1 implies key_in(df@, (#[trigger] terms@[q])@) by {
                    if q < k {
                        assert(key_in(before, terms@[q]@));
                    }
                }
                assert forall|a: int, b: int| 0 <= a < df@.len() && 0 <= b < df@.len() && a != b implies df@[a].0@ != df@[b].0@ by {
                    if a < before.len() {
                        assert(df@[a].0@ == before[a].0@);
                    }
                    if b < before.len() {
                        assert(df@[b].0@ == before[b].0@);
                    }
                }
            }
            k = k + 1;
        }
        proof {
            assert forall|t: Seq<char>| seen(terms@, terms@.len() as int, t) == doc_has(d, t) by {
                if doc_has(d, t) {
                    let q0 = choose|q: int| 0 <= q < d.terms@.len() && #[trigger] d.terms@[q]@ == t;
                    assert(terms@[q0]@ == t);
                }
            }
            assert forall|t: Seq<char>| #[trigger] doc_count(docs@.take(i + 1), t) == doc_count(docs@.take(i as int), t)
                + if doc_has(d, t) { 1int } else { 0int } by {
                lemma_doc_count_step(docs@, t, i as int);
            }
            assert forall|t: Seq<char>| #[trigger] doc_count(docs@.take(i + 1), t) > 0 implies key_in(df@, t) by {
                if doc_count(docs@.take(i as int), t) == 0 {
                    let q0 = choose|q: int| 0 <= q < terms@.len() && terms@[q]@ == t;
                    assert(key_in(df@, terms@[q0]@));
                }
            }
        }
        i = i + 1;
    }
    proof {
        assert(docs@.take(n as int) =~= docs@);
        assert forall|j: int| 0 <= j < df@.len() implies (#[trigger] df@[j]).1 == doc_count(docs@, df@[j].0@) by {
            assert(df@[j].1 == doc_count(docs@.take(n as int), df@[j].0@));
        }
        assert forall|x: int, k: int| 0 <= x < docs@.len() && 0 <= k < docs@[x].terms@.len()
            implies key_in(df@, (#[trigger] docs@[x].terms@[k])@) by {
            let t = docs@[x].terms@[k]@;
            assert(doc_has(docs@[x], t));
            lemma_doc_count_positive(docs@, x, t);
            assert(doc_count(docs@.take(n as int), t) > 0);
        }
        assert(forall|a: int, b: int| 0 <= a < df@.len() && 0 <= b < df@.len() && a != b ==> df@[a].0@ != df@[b].0@);
    }
    df
}


/// A document that is counted for a term holds it.
proof fn lemma_doc_count_witness(docs: Seq<IndexedDoc>, t: Seq<char>)
    requires
        doc_count(docs, t) > 0,
    ensures
        exists|x: int| 0 <= x < docs.len() && doc_has(#[trigger] docs[x], t),
{
    let p = |d: IndexedDoc| doc_has(d, t);
    docs.filter_lemma(p);
    let d = docs.filter(p)[0];
    assert(docs.filter(p).contains(d));
    docs.lemma_filter_contains_rev(p, d);
    let x = choose|x: int| 0 <= x < docs.len() && docs[x] == d;
    assert(doc_has(docs[x], t));
}

/// The number of times `t` occurs among `terms`.
pub open spec fn occurrences(terms: Seq<String>, t: Seq<char>) -> nat {
    terms.filter(|s: String| s@ == t).len()
}

impl IndexedDoc {
    /// How many times `term` occurs among the document's terms.
    pub fn term_frequency(&self, term: &String) -> (r: usize)
        ensures
            r == occurrences(self.terms@, term@),
    {
        let ghost p = |s: String| s@ == term@;
        let ghost ts = self.terms@;
        let mut count: usize = 0;
        let mut k: usize = 0;
        proof {
            crate::graph::lemma_filter_all(ts, p);
        }
        while k < self.terms.len()
            invariant
                ts == self.terms@,
                p == |s: String| s@ == term@,
                0 <= k <= ts.len(),
                count == ts.take(k as int).filter(p).len(),
                count <= k,
            decreases ts.len() - k,
        {
            proof {
                crate::graph::lemma_filter_step(ts, p, k as int);
            }
            if self.terms[k] == *term {
                count = count + 1;
            }
            k = k + 1;
        }
        proof {
            crate::graph::lemma_filter_all(ts, p);
        }
        count
    }
}

impl BM25Index {
    /// The index describes its documents: `df` holds each term of a
    /// document once with its count, and `n` is the number of documents.
    pub open spec fn wf(&self) -> bool {
        &&& df_ok(self.df@, self.docs@)
        &&& self.n == self.docs@.len()
    }

    /// How many documents hold `term`, as the index records it: the count
    /// of its entry in `df`, or 0 for a term that has none. For an index
    /// that describes its documents (as `index_graph` builds it) this is
    /// the number of documents whose terms hold `term`.
    pub fn document_frequency(&self, term: &String) -> (r: usize)
        ensures
            r == recorded_count(self.df@, term@),
            self.wf() ==> r == doc_count(self.docs@, term@),
    {
        match position_in(&self.df, term) {
            Some(j) => {
                proof {
                    lemma_recorded_count(self.df@, term@, j as int);
                }
                self.df[j].1
            },
            None => {
                proof {
                    lemma_recorded_count_absent(self.df@, term@);
                    if self.wf() && doc_count(self.docs@, term@) > 0 {
                        lemma_doc_count_witness(self.docs@, term@);
                        let x = choose|x: int| 0 <= x < self.docs@.len() && doc_has(#[trigger] self.docs@[x], term@);
                        let k = choose|k: int| 0 <= k < self.docs@[x].terms@.len() && #[trigger] self.docs@[x].terms@[k]@ == term@;
                        assert(key_in(self.df@, self.docs@[x].terms@[k]@));
                        assert(false);
                    }
                }
                0
            },
        }
    }
}

} // verus!
