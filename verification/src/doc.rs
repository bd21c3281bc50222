//! The document tree and the structural recognition of marked nodes.
//!
//! The tree is the JSON-like abstract syntax tree of the external document
//! processor. A node is "marked" when it is a code block whose first class
//! name is the diagram language tag; recognition is purely structural, and
//! malformed near-matches are left untouched rather than rejected.
use vstd::prelude::*;

verus! {

/// A document-tree value. Numbers are carried as their decimal text so
/// that the tree round-trips without the library interpreting them;
/// mappings are carried as key-value pairs in serialization order.
#[derive(Debug, PartialEq, Eq)]
pub enum DocValue {
    Null,
    Bool(bool),
    Num(String),
    Str(String),
    Arr(Vec<DocValue>),
    Obj(Vec<(String, DocValue)>),
}

/// Deep structural equality of two document trees, compared through views
/// so that it is insensitive to how the underlying buffers were built.
pub open spec fn same(a: DocValue, b: DocValue) -> bool
    decreases a,
{
    match (a, b) {
        (DocValue::Null, DocValue::Null) => true,
        (DocValue::Bool(x), DocValue::Bool(y)) => x == y,
        (DocValue::Num(x), DocValue::Num(y)) => x@ == y@,
        (DocValue::Str(x), DocValue::Str(y)) => x@ == y@,
        (DocValue::Arr(xs), DocValue::Arr(ys)) => {
            &&& xs@.len() == ys@.len()
            &&& forall|i: int| 0 <= i < xs@.len() ==> same(#[trigger] xs@[i], ys@[i])
        },
        (DocValue::Obj(fs), DocValue::Obj(gs)) => {
            &&& fs@.len() == gs@.len()
            &&& forall|i: int|
                0 <= i < fs@.len() ==> (#[trigger] fs@[i]).0@ == gs@[i].0@ && same(
                    fs@[i].1,
                    gs@[i].1,
                )
        },
        _ => false,
    }
}

/// The value under the first occurrence of `key` among the fields `fs`.
pub open spec fn lookup(fs: Seq<(String, DocValue)>, key: Seq<char>) -> Option<DocValue>
    decreases fs.len(),
{
    if fs.len() == 0 {
        None
    } else if fs[0].0@ == key {
        Some(fs[0].1)
    } else {
        lookup(fs.skip(1), key)
    }
}

/// The marked content of a mapping, when the mapping is a marked node:
/// its type tag is the code-block sentinel, its content array holds
/// exactly a metadata triple and a raw text string, and the triple's
/// class list begins with the diagram language tag. Anything else is not
/// marked and yields `None`.
pub open spec fn marked_content(fs: Seq<(String, DocValue)>) -> Option<Seq<char>> {
    match lookup(fs, "t"@) {
        Some(DocValue::Str(tag)) => {
            if tag@ == "CodeBlock"@ {
                match lookup(fs, "c"@) {
                    Some(DocValue::Arr(inner)) => {
                        if inner@.len() == 2 {
                            match (inner@[0], inner@[1]) {
                                (DocValue::Arr(meta), DocValue::Str(content)) => {
                                    if meta@.len() == 3 {
                                        match meta@[1] {
                                            DocValue::Arr(classes) => {
                                                if classes@.len() >= 1 {
                                                    match classes@[0] {
                                                        DocValue::Str(cl) => {
                                                            if cl@ == "svgdx"@ {
                                                                Some(content@)
                                                            } else {
                                                                None
                                                            }
                                                        },
                                                        _ => None,
                                                    }
                                                } else {
                                                    None
                                                }
                                            },
                                            _ => None,
                                        }
                                    } else {
                                        None
                                    }
                                },
                                _ => None,
                            }
                        } else {
                            None
                        }
                    },
                    _ => None,
                }
            } else {
                None
            }
        },
        _ => None,
    }
}

/// Whether a mapping is a marked node.
pub open spec fn is_marked(fs: Seq<(String, DocValue)>) -> bool {
    marked_content(fs) is Some
}

/// Whether a tree contains no marked node anywhere.
pub open spec fn no_marked(v: DocValue) -> bool
    decreases v,
{
    match v {
        DocValue::Arr(xs) => forall|i: int| 0 <= i < xs@.len() ==> no_marked(#[trigger] xs@[i]),
        DocValue::Obj(fs) => !is_marked(fs@) && forall|i: int|
            0 <= i < fs@.len() ==> no_marked((#[trigger] fs@[i]).1),
        _ => true,
    }
}

/// The shape of an inline replacement: a raw HTML block holding `markup`.
pub open spec fn is_raw_block(fs: Seq<(String, DocValue)>, markup: Seq<char>) -> bool {
    &&& fs.len() == 2
    &&& fs[0].0@ == "t"@
    &&& fs[0].1 matches DocValue::Str(tag) && tag@ == "RawBlock"@
    &&& fs[1].0@ == "c"@
    &&& fs[1].1 matches DocValue::Arr(c) && c@.len() == 2 && (c@[0] matches DocValue::Str(f)
        && f@ == "html"@) && (c@[1] matches DocValue::Str(m) && m@ == markup)
}

/// The shape of an image node pointing at `path`, with empty attributes,
/// caption and title.
pub open spec fn is_image_obj(fs: Seq<(String, DocValue)>, path: Seq<char>) -> bool {
    &&& fs.len() == 2
    &&& fs[0].0@ == "t"@
    &&& fs[0].1 matches DocValue::Str(tag) && tag@ == "Image"@
    &&& fs[1].0@ == "c"@
    &&& fs[1].1 matches DocValue::Arr(c) && c@.len() == 3 && (c@[0] matches DocValue::Arr(attr)
        && attr@.len() == 3 && (attr@[0] matches DocValue::Str(id) && id@ == Seq::<char>::empty())
        && (attr@[1] matches DocValue::Arr(cls) && cls@.len() == 0) && (
    attr@[2] matches DocValue::Arr(kv) && kv@.len() == 0)) && (c@[1] matches DocValue::Arr(cap)
        && cap@.len() == 0) && (c@[2] matches DocValue::Arr(tgt) && tgt@.len() == 2 && (
    tgt@[0] matches DocValue::Str(p) && p@ == path) && (tgt@[1] matches DocValue::Str(ttl) && ttl@
        == Seq::<char>::empty()))
}

/// The shape of a file-link replacement: a paragraph holding a single
/// image node pointing at `path`.
pub open spec fn is_para_image(fs: Seq<(String, DocValue)>, path: Seq<char>) -> bool {
    &&& fs.len() == 2
    &&& fs[0].0@ == "t"@
    &&& fs[0].1 matches DocValue::Str(tag) && tag@ == "Para"@
    &&& fs[1].0@ == "c"@
    &&& fs[1].1 matches DocValue::Arr(c) && c@.len() == 1 && (c@[0] matches DocValue::Obj(img)
        && is_image_obj(img@, path))
}

/// A raw HTML block is never itself a marked node, and no marked node
/// hides below it.
pub proof fn lemma_raw_block_unmarked(fs: Seq<(String, DocValue)>, markup: Seq<char>)
    requires
        is_raw_block(fs, markup),
    ensures
        !is_marked(fs),
        forall|i: int| 0 <= i < fs.len() ==> no_marked((#[trigger] fs[i]).1),
{
    reveal_strlit("t");
    reveal_strlit("RawBlock");
    reveal_strlit("CodeBlock");
    assert(lookup(fs, "t"@) == Some(fs[0].1));
    assert("RawBlock"@.len() == 8 && "CodeBlock"@.len() == 9);
    assert(marked_content(fs) is None);
    assert forall|i: int| 0 <= i < fs.len() implies no_marked((#[trigger] fs[i]).1) by {
        if i == 0 {
            assert(no_marked(fs[0].1));
        } else {
            assert(i == 1);
            let c = fs[1].1->Arr_0;
            assert(forall|j: int| 0 <= j < c@.len() ==> no_marked(#[trigger] c@[j]));
        }
    }
}

/// A paragraph holding one image link is never itself a marked node, and
/// no marked node hides below it.
pub proof fn lemma_para_image_unmarked(fs: Seq<(String, DocValue)>, path: Seq<char>)
    requires
        is_para_image(fs, path),
    ensures
        !is_marked(fs),
        forall|i: int| 0 <= i < fs.len() ==> no_marked((#[trigger] fs[i]).1),
{
    reveal_strlit("t");
    reveal_strlit("Para");
    reveal_strlit("Image");
    reveal_strlit("CodeBlock");
    assert(lookup(fs, "t"@) == Some(fs[0].1));
    assert("Para"@.len() == 4 && "Image"@.len() == 5 && "CodeBlock"@.len() == 9);
    assert(marked_content(fs) is None);
    let c = fs[1].1->Arr_0;
    let img = c@[0]->Obj_0;
    assert(lookup(img@, "t"@) == Some(img@[0].1));
    assert(marked_content(img@) is None);
    let c2 = img@[1].1->Arr_0;
    assert(no_marked(c2@[0])) by {
        let attr = c2@[0]->Arr_0;
        assert(forall|j: int| 0 <= j < attr@.len() ==> no_marked(#[trigger] attr@[j]));
    }
    assert(no_marked(c2@[1])) by {
        let cap = c2@[1]->Arr_0;
        assert(forall|j: int| 0 <= j < cap@.len() ==> no_marked(#[trigger] cap@[j]));
    }
    assert(no_marked(c2@[2])) by {
        let tgt = c2@[2]->Arr_0;
        assert(forall|j: int| 0 <= j < tgt@.len() ==> no_marked(#[trigger] tgt@[j]));
    }
    assert(forall|j: int| 0 <= j < c2@.len() ==> no_marked(#[trigger] c2@[j]));
    assert(forall|j: int| 0 <= j < img@.len() ==> no_marked((#[trigger] img@[j]).1));
    assert(no_marked(c@[0]));
    assert(forall|j: int| 0 <= j < c@.len() ==> no_marked(#[trigger] c@[j]));
    assert forall|i: int| 0 <= i < fs.len() implies no_marked((#[trigger] fs[i]).1) by {
        if i == 0 {
            assert(no_marked(fs[0].1));
        } else {
            assert(i == 1);
        }
    }
}

/// Build the inline replacement: a raw HTML block holding `markup`.
pub fn make_raw_block(markup: String) -> (r: Vec<(String, DocValue)>)
    ensures
        is_raw_block(r@, markup@),
        !is_marked(r@),
        forall|i: int| 0 <= i < r@.len() ==> no_marked((#[trigger] r@[i]).1),
{
    let mut c: Vec<DocValue> = Vec::new();
    c.push(DocValue::Str("html".to_owned()));
    c.push(DocValue::Str(markup));
    let mut fs: Vec<(String, DocValue)> = Vec::new();
    fs.push(("t".to_owned(), DocValue::Str("RawBlock".to_owned())));
    fs.push(("c".to_owned(), DocValue::Arr(c)));
    proof {
        lemma_raw_block_unmarked(fs@, fs@[1].1->Arr_0@[1]->Str_0@);
    }
    fs
}

/// Build the file-link replacement: a paragraph holding a single image
/// node pointing at `path`.
pub fn make_para_image(path: String) -> (r: Vec<(String, DocValue)>)
    ensures
        is_para_image(r@, path@),
        !is_marked(r@),
        forall|i: int| 0 <= i < r@.len() ==> no_marked((#[trigger] r@[i]).1),
{
    let ghost path_view = path@;
    let mut attr: Vec<DocValue> = Vec::new();
    attr.push(DocValue::Str("".to_owned()));
    attr.push(DocValue::Arr(Vec::new()));
    attr.push(DocValue::Arr(Vec::new()));
    let mut tgt: Vec<DocValue> = Vec::new();
    tgt.push(DocValue::Str(path));
    tgt.push(DocValue::Str("".to_owned()));
    let mut c2: Vec<DocValue> = Vec::new();
    c2.push(DocValue::Arr(attr));
    c2.push(DocValue::Arr(Vec::new()));
    c2.push(DocValue::Arr(tgt));
    let mut img: Vec<(String, DocValue)> = Vec::new();
    img.push(("t".to_owned(), DocValue::Str("Image".to_owned())));
    img.push(("c".to_owned(), DocValue::Arr(c2)));
    let mut c: Vec<DocValue> = Vec::new();
    c.push(DocValue::Obj(img));
    let mut fs: Vec<(String, DocValue)> = Vec::new();
    fs.push(("t".to_owned(), DocValue::Str("Para".to_owned())));
    fs.push(("c".to_owned(), DocValue::Arr(c)));
    proof {
        reveal_strlit("");
        assert(""@.len() == 0);
        assert(""@ =~= Seq::<char>::empty());
        assert(is_para_image(fs@, path_view));
        lemma_para_image_unmarked(fs@, path_view);
    }
    fs
}

/// Find the value under the first occurrence of `key`.
fn lookup_field<'a>(fs: &'a Vec<(String, DocValue)>, key: &str) -> (r: Option<&'a DocValue>)
    ensures
        match r {
            Some(v) => lookup(fs@, key@) == Some(*v),
            None => lookup(fs@, key@) is None,
        },
{
    let mut i: usize = 0;
    proof {
        assert(fs@.skip(0) =~= fs@);
    }
    while i < fs.len()
        invariant
            0 <= i <= fs@.len(),
            lookup(fs@, key@) == lookup(fs@.skip(i as int), key@),
        decreases fs@.len() - i,
    {
        proof {
            assert(fs@.skip(i as int)[0] == fs@[i as int]);
            assert(fs@.skip(i as int).skip(1) =~= fs@.skip(i as int + 1));
        }
        if fs[i].0 == key.to_owned() {
            return Some(&fs[i].1);
        }
        i += 1;
    }
    proof {
        assert(fs@.skip(fs@.len() as int) =~= Seq::<(String, DocValue)>::empty());
    }
    None
}

/// Extract the content of a marked node, per `marked_content`; `None`
/// when the mapping is not marked.
pub fn select_marked(fs: &Vec<(String, DocValue)>) -> (r: Option<String>)
    ensures
        match r {
            Some(c) => marked_content(fs@) == Some(c@),
            None => marked_content(fs@) is None,
        },
{
    let tag = match lookup_field(fs, "t") {
        Some(DocValue::Str(tag)) => tag,
        _ => {
            return None;
        },
    };
    if !(*tag == "CodeBlock".to_owned()) {
        return None;
    }
    let inner = match lookup_field(fs, "c") {
        Some(DocValue::Arr(inner)) => inner,
        _ => {
            return None;
        },
    };
    if inner.len() != 2 {
        return None;
    }
    let meta = match &inner[0] {
        DocValue::Arr(meta) => meta,
        _ => {
            return None;
        },
    };
    let content = match &inner[1] {
        DocValue::Str(content) => content,
        _ => {
            return None;
        },
    };
    if meta.len() != 3 {
        return None;
    }
    let classes = match &meta[1] {
        DocValue::Arr(classes) => classes,
        _ => {
            return None;
        },
    };
    if classes.len() == 0 {
        return None;
    }
    let cl = match &classes[0] {
        DocValue::Str(cl) => cl,
        _ => {
            return None;
        },
    };
    if !(*cl == "svgdx".to_owned()) {
        return None;
    }
    Some(content.clone())
}

} // verus!
