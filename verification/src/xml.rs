//! Light reading of the catalog's `Definition` XML: whether it describes a feature dataset,
//! and the text of a tag (the spatial reference WKT, the geometry type name). A substring
//! scan is enough for these; no XML parser is involved.
use vstd::prelude::*;
use vstd::string::StrSliceExecFns;
use crate::text::{chars_of, find_from, first_occurrence, trim, trim_bounds};

verus! {

/// The trimmed text between the first `open` tag and the first `close` tag after it.
pub open spec fn tag_text(def: Seq<char>, open: Seq<char>, close: Seq<char>) -> Option<Seq<char>> {
    match first_occurrence(def, open) {
        None => None,
        Some(i) => {
            let rest = def.subrange((i + open.len()) as int, def.len() as int);
            match first_occurrence(rest, close) {
                None => None,
                Some(e) => Some(trim(rest.subrange(0, e as int))),
            }
        },
    }
}

/// The first occurrence is an occurrence.
proof fn lemma_first_occurrence(h: Seq<char>, n: Seq<char>)
    ensures
        first_occurrence(h, n) matches Some(i) ==> crate::text::occurs_at(h, n, i as int) && i + n.len() <= h.len(),
{
    if exists|i: int| crate::text::occurs_at(h, n, i) {
        let k = choose|i: int| crate::text::occurs_at(h, n, i);
        let w = first_witness(h, n, k);
        assert(crate::text::occurs_at(h, n, w as int) && forall|j: int| 0 <= j < w ==> !crate::text::occurs_at(h, n, j));
    }
}

/// There is a first occurrence at or before any occurrence.
proof fn first_witness(h: Seq<char>, n: Seq<char>, k: int) -> (w: nat)
    requires
        crate::text::occurs_at(h, n, k),
    ensures
        crate::text::occurs_at(h, n, w as int),
        forall|j: int| 0 <= j < w ==> !crate::text::occurs_at(h, n, j),
    decreases k,
{
    if exists|j: int| 0 <= j < k && crate::text::occurs_at(h, n, j) {
        let j = choose|j: int| 0 <= j < k && crate::text::occurs_at(h, n, j);
        first_witness(h, n, j)
    } else {
        k as nat
    }
}

/// The text of the tag `open` ... `close` in `def`.
fn tag_text_of(def: &str, open: &str, close: &str) -> (r: Option<String>)
    ensures
        match tag_text(def@, open@, close@) {
            Some(t) => r matches Some(x) && x@ == t,
            None => r is None,
        },
{
    let cs = chars_of(def);
    let o = chars_of(open);
    let c = chars_of(close);
    let cl = cs.len();
    assert(cs@.subrange(0, cs@.len() as int) =~= cs@);
    proof {
        lemma_first_occurrence(def@, open@);
    }
    let i = match find_from(&cs, 0, &o) {
        Some(i) => i,
        None => return None,
    };
    let start = i + o.len();
    proof {
        lemma_first_occurrence(cs@.subrange(start as int, cs@.len() as int), close@);
    }
    let e = match find_from(&cs, start, &c) {
        Some(e) => e,
        None => return None,
    };
    let (a, b) = trim_bounds(&cs, start, start + e);
    assert(cs@.subrange(start as int, start + e) =~= cs@.subrange(start as int, cs@.len() as int).subrange(0, e as int));
    let t = def.substring_char(a, b);
    Some(t.to_string())
}

/// Whether a `Definition` XML describes a feature dataset (holds `<DEFeatureDataset`).
pub fn is_feature_dataset(def: &str) -> (b: bool)
    ensures
        b == (first_occurrence(def@, "<DEFeatureDataset"@) is Some),
{
    let cs = chars_of(def);
    let n = chars_of("<DEFeatureDataset");
    assert(cs@.subrange(0, cs@.len() as int) =~= cs@);
    find_from(&cs, 0, &n).is_some()
}

/// The text of `<WKT> ... </WKT>`, trimmed, if there is one.
pub fn extract_wkt(def: &str) -> (r: Option<String>)
    ensures
        match tag_text(def@, "<WKT>"@, "</WKT>"@) {
            Some(t) => r matches Some(x) && x@ == t,
            None => r is None,
        },
{
    tag_text_of(def, "<WKT>", "</WKT>")
}

/// The text of `<GeometryType> ... </GeometryType>` (an ESRI geometry type name such as
/// `esriGeometryPoint`), trimmed, if there is one and it is not empty.
pub fn extract_geometry_type_name(def: &str) -> (r: Option<String>)
    ensures
        match tag_text(def@, "<GeometryType>"@, "</GeometryType>"@) {
            Some(t) => if t.len() > 0 { r matches Some(x) && x@ == t } else { r is None },
            None => r is None,
        },
{
    match tag_text_of(def, "<GeometryType>", "</GeometryType>") {
        Some(v) => {
            if v.as_str().unicode_len() == 0 {
                None
            } else {
                Some(v)
            }
        },
        None => None,
    }
}

} // verus!
