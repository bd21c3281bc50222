//! The AST rewriter: walks the document tree, replaces every marked node
//! with its rendered block, and collects the raster conversions that
//! remain to be run once the traversal is done.
use crate::convert::png_path_of;
use crate::doc::is_marked;
use crate::doc::is_para_image;
use crate::doc::is_raw_block;
use crate::doc::lemma_para_image_unmarked;
use crate::doc::lookup;
use crate::doc::lemma_raw_block_unmarked;
use crate::doc::make_para_image;
use crate::doc::make_raw_block;
use crate::doc::marked_content;
use crate::doc::no_marked;
use crate::doc::same;
use crate::doc::select_marked;
use crate::doc::DocValue;
use crate::render::svgdx_handler;
use crate::render::svgdx_transform;
use crate::render::TransformResult;
use crate::strategy::EmbedType;
use crate::text::error_html;
use crate::text::sanitize;
use vstd::prelude::*;

verus! {

/// What the persistent-artifact writer guarantees of every path it
/// returns: the vector extension, preceded by a character that is part
/// of the generated file name (never a separator or a dot), so a raster
/// name can always be derived from it.
pub open spec fn artifact_path_ok(p: Seq<char>) -> bool {
    &&& p.len() >= 5
    &&& p[p.len() - 4] == '.'
    &&& p[p.len() - 3] == 's'
    &&& p[p.len() - 2] == 'v'
    &&& p[p.len() - 1] == 'g'
    &&& p[p.len() - 5] != '/'
    &&& p[p.len() - 5] != '.'
}

/// The raster path produced beside a vector artifact: the `.svg` suffix
/// replaced by `.png`.
pub open spec fn png_name(p: Seq<char>) -> Seq<char> {
    p.take(p.len() - 4) + ".png"@
}

/// Relies on tempfile::Builder (prefix, suffix, disable_cleanup,
/// tempfile_in / tempfile) and std::io::Write::write_all: creates a file
/// named `tmp-svgdx-<random>.svg` - the random part alphanumeric - in the
/// given directory (or the platform temporary directory), marks it to
/// persist after its handle drops, writes `content` to it, and returns
/// its path.
#[verifier::external_body]
fn persist_artifact(tmpdir: &Option<String>, content: &str) -> (r: Result<String, String>)
    ensures
        r matches Ok(p) ==> artifact_path_ok(p@),
{
    let mut builder = tempfile::Builder::new();
    let builder = builder.prefix("tmp-svgdx-").suffix(".svg").disable_cleanup(true);
    let file = match tmpdir {
        Some(d) => builder.tempfile_in(d),
        None => builder.tempfile(),
    };
    match file {
        Ok(mut f) => match std::io::Write::write_all(&mut f, content.as_bytes()) {
            Ok(()) => Ok(f.path().to_string_lossy().into_owned()),
            Err(e) => Err(e.to_string()),
        },
        Err(e) => Err(e.to_string()),
    }
}

/// Whether the fields `nfs` are the replacement block owed for a marked
/// node with the given content under the given embedding mode: a render
/// error always becomes a visible raw block whatever the mode; a
/// successful render becomes inline markup, a vector-file link, or a
/// raster-file link derived from a vector artifact.
pub open spec fn block_for(
    nfs: Seq<(String, DocValue)>,
    content: Seq<char>,
    embed: EmbedType,
) -> bool {
    match svgdx_transform(content) {
        Result::Err(e) => is_raw_block(nfs, error_html(e)),
        Result::Ok(svg) => match embed {
            EmbedType::Inline => is_raw_block(nfs, sanitize(svg)),
            EmbedType::SvgFile => exists|p: Seq<char>|
                #[trigger] artifact_path_ok(p) && is_para_image(nfs, p),
            EmbedType::PngFile => exists|p: Seq<char>|
                #[trigger] artifact_path_ok(p) && is_para_image(nfs, png_name(p)),
        },
    }
}

/// How one tree rewrites to another under an embedding mode: scalars are
/// kept, sequences rewrite pointwise, a marked mapping becomes its
/// replacement block, and any other mapping keeps its keys and rewrites
/// its values pointwise.
pub open spec fn replaces(a: DocValue, b: DocValue, embed: EmbedType) -> bool
    decreases a,
{
    match a {
        DocValue::Arr(xs) => (b matches DocValue::Arr(ys) && ys@.len() == xs@.len() && (forall|
            i: int,
        |
            0 <= i < xs@.len() ==> replaces(#[trigger] xs@[i], ys@[i], embed))),
        DocValue::Obj(fs) => {
            if is_marked(fs@) {
                b matches DocValue::Obj(gs) && block_for(gs@, marked_content(fs@)->0, embed)
            } else {
                (b matches DocValue::Obj(gs) && gs@.len() == fs@.len() && (forall|i: int|
                    0 <= i < fs@.len() ==> (#[trigger] fs@[i]).0@ == gs@[i].0@ && replaces(
                        fs@[i].1,
                        gs@[i].1,
                        embed,
                    )))
            }
        },
        _ => same(a, b),
    }
}

/// The plugin: the embedding mode chosen for this run and the override
/// directory for persistent artifacts, if one was configured.
pub struct SvgdxPlugin {
    pub embed: EmbedType,
    pub tmpdir: Option<String>,
}

impl SvgdxPlugin {
    /// Make a plugin for one run.
    pub fn new(embed: EmbedType, tmpdir: Option<String>) -> (r: Self)
        ensures
            r.embed == embed,
            r.tmpdir == tmpdir,
    {
        SvgdxPlugin { embed, tmpdir }
    }

    /// The content of a marked node, when `object` is one.
    pub fn select_object(&self, object: &Vec<(String, DocValue)>) -> (r: Option<String>)
        ensures
            match r {
                Some(c) => marked_content(object@) == Some(c@),
                None => marked_content(object@) is None,
            },
    {
        select_marked(object)
    }

    /// Build the replacement block for one marked node's content: render
    /// it, then embed per the mode, materializing a persistent vector
    /// artifact for the file-link modes and queueing a raster conversion
    /// for the raster mode. Fails only when an artifact cannot be
    /// written.
    fn generate_block(&self, content: &str, jobs: &mut Vec<String>) -> (r: Result<
        Vec<(String, DocValue)>,
        String,
    >)
        ensures
            r matches Ok(nf) ==> block_for(nf@, content@, self.embed) && !is_marked(nf@) && (
            forall|i: int| 0 <= i < nf@.len() ==> no_marked((#[trigger] nf@[i]).1)),
            final(jobs)@.len() >= old(jobs)@.len(),
            final(jobs)@.take(old(jobs)@.len() as int) == old(jobs)@,
            forall|i: int|
                old(jobs)@.len() <= i < final(jobs)@.len() ==> artifact_path_ok(
                    (#[trigger] final(jobs)@[i])@,
                ),
            self.embed is Inline || svgdx_transform(content@) is Err ==> r is Ok && final(jobs)@
                == old(jobs)@,
            !(self.embed is PngFile) ==> final(jobs)@ == old(jobs)@,
            self.embed is PngFile && svgdx_transform(content@) is Ok && r is Ok
                ==> final(jobs)@.len() == old(jobs)@.len() + 1 && is_para_image(
                r->Ok_0@,
                png_name(final(jobs)@.last()@),
            ),
    {
        match svgdx_handler(content) {
            TransformResult::Error(e) => {
                let nf = make_raw_block(e);
                proof {
                    assert(jobs@.take(jobs@.len() as int) =~= jobs@);
                }
                Ok(nf)
            },
            TransformResult::Svg(s) => {
                match self.embed {
                    EmbedType::Inline => {
                        let nf = make_raw_block(s);
                        proof {
                            assert(jobs@.take(jobs@.len() as int) =~= jobs@);
                        }
                        Ok(nf)
                    },
                    EmbedType::SvgFile => {
                        let svgpath = match persist_artifact(&self.tmpdir, s.as_str()) {
                            Ok(p) => p,
                            Err(e) => {
                                proof {
                                    assert(jobs@.take(jobs@.len() as int) =~= jobs@);
                                }
                                return Err(e);
                            },
                        };
                        let ghost pv = svgpath@;
                        let nf = make_para_image(svgpath);
                        proof {
                            assert(artifact_path_ok(pv) && is_para_image(nf@, pv));
                            assert(jobs@.take(jobs@.len() as int) =~= jobs@);
                        }
                        Ok(nf)
                    },
                    EmbedType::PngFile => {
                        let svgpath = match persist_artifact(&self.tmpdir, s.as_str()) {
                            Ok(p) => p,
                            Err(e) => {
                                proof {
                                    assert(jobs@.take(jobs@.len() as int) =~= jobs@);
                                }
                                return Err(e);
                            },
                        };
                        let ghost pv = svgpath@;
                        let n = svgpath.as_str().unicode_len();
                        let stem = svgpath.as_str().substring_char(0, n - 4);
                        let pngpath = String::from_str(stem).concat(".png");
                        proof {
                            assert(svgpath@.subrange(0, n as int - 4) =~= svgpath@.take(
                                n as int - 4,
                            ));
                            assert(pngpath@ == png_name(pv));
                        }
                        let nf = make_para_image(pngpath);
                        jobs.push(svgpath);
                        proof {
                            assert(artifact_path_ok(pv) && is_para_image(nf@, png_name(pv)));
                            assert(jobs@.take(jobs@.len() as int - 1) =~= old(jobs)@);
                            assert(jobs@.take(old(jobs)@.len() as int) =~= old(jobs)@);
                        }
                        Ok(nf)
                    },
                }
            },
        }
    }

    /// Replace a marked mapping in place by its replacement block,
    /// queueing a raster conversion when the mode asks for one.
    pub fn process_object(&self, object: &mut Vec<(String, DocValue)>, content: &str, jobs: &mut Vec<
        String,
    >) -> (r: Result<(), String>)
        ensures
            r is Ok ==> block_for(final(object)@, content@, self.embed) && !is_marked(
                final(object)@,
            ),
            final(jobs)@.len() >= old(jobs)@.len(),
            final(jobs)@.take(old(jobs)@.len() as int) == old(jobs)@,
            forall|i: int|
                old(jobs)@.len() <= i < final(jobs)@.len() ==> artifact_path_ok(
                    (#[trigger] final(jobs)@[i])@,
                ),
            self.embed is Inline || svgdx_transform(content@) is Err ==> r is Ok && final(jobs)@
                == old(jobs)@,
            !(self.embed is PngFile) ==> final(jobs)@ == old(jobs)@,
    {
        match self.generate_block(content, jobs) {
            Ok(nf) => {
                *object = nf;
                Ok(())
            },
            Err(e) => Err(e),
        }
    }

    /// Rewrite one tree value, collecting the raster conversions still
    /// owed. The relation between input and output is `replaces`; a tree
    /// without marked nodes always succeeds and is left unchanged, and
    /// the inline mode, which writes no artifact, never fails.
    #[verifier::loop_isolation(false)]
    fn process_value(&self, v: DocValue, jobs: &mut Vec<String>) -> (r: Result<DocValue, String>)
        ensures
            r matches Ok(nv) ==> replaces(v, nv, self.embed),
            final(jobs)@.len() >= old(jobs)@.len(),
            final(jobs)@.take(old(jobs)@.len() as int) == old(jobs)@,
            forall|i: int|
                old(jobs)@.len() <= i < final(jobs)@.len() ==> artifact_path_ok(
                    (#[trigger] final(jobs)@[i])@,
                ),
            no_marked(v) ==> r is Ok && final(jobs)@ == old(jobs)@,
            self.embed is Inline ==> r is Ok,
            !(self.embed is PngFile) ==> final(jobs)@ == old(jobs)@,
        decreases v,
    {
        let ghost v0 = v;
        let ghost jobs0 = jobs@;
        proof {
            assert(jobs@.take(jobs@.len() as int) =~= jobs@);
        }
        match v {
            DocValue::Null => Ok(DocValue::Null),
            DocValue::Bool(b) => Ok(DocValue::Bool(b)),
            DocValue::Num(s) => Ok(DocValue::Num(s)),
            DocValue::Str(s) => Ok(DocValue::Str(s)),
            DocValue::Arr(xs) => {
                let ghost oxs = xs@;
                let mut xs = xs;
                let mut ys: Vec<DocValue> = Vec::new();
                proof {
                    assert(xs@ =~= oxs.skip(0));
                }
                while xs.len() > 0
                    invariant
                        oxs.len() == ys@.len() + xs@.len(),
                        xs@ == oxs.skip(ys@.len() as int),
                        v0 matches DocValue::Arr(oxs_vec) && oxs_vec@ == oxs,
                        forall|i: int|
                            0 <= i < ys@.len() ==> replaces(oxs[i], #[trigger] ys@[i], self.embed),
                        jobs@.len() >= jobs0.len(),
                        jobs@.take(jobs0.len() as int) == jobs0,
                        forall|i: int|
                            jobs0.len() <= i < jobs@.len() ==> artifact_path_ok(
                                (#[trigger] jobs@[i])@,
                            ),
                        no_marked(v0) ==> jobs@ == jobs0,
                        !(self.embed is PngFile) ==> jobs@ == jobs0,
                    decreases xs@.len(),
                {
                    let ghost k = ys@.len() as int;
                    proof {
                        assert(oxs.skip(k)[0] == oxs[k]);
                        assert(oxs.skip(k).skip(1) =~= oxs.skip(k + 1));
                    }
                    let x = xs.remove(0);
                    proof {
                        assert(x == oxs[k]);
                        assert(x == v0->Arr_0@[k]);
                        assert(decreases_to!(v0 => x));
                        if no_marked(v0) {
                            assert(no_marked(oxs[k]));
                        }
                    }
                    let ghost jobs_pre = jobs@;
                    match self.process_value(x, jobs) {
                        Ok(nv) => {
                            ys.push(nv);
                            proof {
                                assert(jobs@.take(jobs_pre.len() as int) == jobs_pre);
                                assert(jobs@.take(jobs0.len() as int) =~= jobs_pre.take(
                                    jobs0.len() as int,
                                ));
                                assert forall|i: int|
                                    jobs0.len() <= i < jobs@.len() implies artifact_path_ok(
                                    (#[trigger] jobs@[i])@,
                                ) by {
                                    if i < jobs_pre.len() {
                                        assert(jobs@.take(jobs_pre.len() as int)[i] == jobs@[i]);
                                        assert(jobs@[i] == jobs_pre[i]);
                                    }
                                }
                            }
                        },
                        Err(e) => {
                            proof {
                                if no_marked(v0) {
                                    assert(no_marked(oxs[k]));
                                    assert(false);
                                }
                                assert(jobs@.take(jobs0.len() as int) =~= jobs_pre.take(
                                    jobs0.len() as int,
                                ));
                                assert forall|i: int|
                                    jobs0.len() <= i < jobs@.len() implies artifact_path_ok(
                                    (#[trigger] jobs@[i])@,
                                ) by {
                                    if i < jobs_pre.len() {
                                        assert(jobs@.take(jobs_pre.len() as int)[i] == jobs@[i]);
                                        assert(jobs@[i] == jobs_pre[i]);
                                    }
                                }
                            }
                            return Err(e);
                        },
                    }
                }
                proof {
                    assert(oxs.len() == ys@.len());
                    assert(replaces(v0, DocValue::Arr(ys), self.embed));
                }
                Ok(DocValue::Arr(ys))
            },
            DocValue::Obj(fs) => {
                match select_marked(&fs) {
                    Some(content) => {
                        proof {
                            assert(is_marked(fs@));
                            assert(!no_marked(v0));
                        }
                        match self.generate_block(content.as_str(), jobs) {
                            Ok(nf) => {
                                // the replacement holds no marked node, so there
                                // is nothing in it left to rewrite
                                proof {
                                    assert(marked_content(fs@)->0 == content@);
                                }
                                Ok(DocValue::Obj(nf))
                            },
                            Err(e) => Err(e),
                        }
                    },
                    None => {
                        let ghost ofs = fs@;
                        let mut fs = fs;
                        let mut gs: Vec<(String, DocValue)> = Vec::new();
                        proof {
                            assert(fs@ =~= ofs.skip(0));
                        }
                        while fs.len() > 0
                            invariant
                                ofs.len() == gs@.len() + fs@.len(),
                                fs@ == ofs.skip(gs@.len() as int),
                                marked_content(ofs) is None,
                                v0 matches DocValue::Obj(ofs_vec) && ofs_vec@ == ofs,
                                forall|i: int|
                                    0 <= i < gs@.len() ==> (#[trigger] gs@[i]).0@ == ofs[i].0@
                                        && replaces(ofs[i].1, gs@[i].1, self.embed),
                                jobs@.len() >= jobs0.len(),
                                jobs@.take(jobs0.len() as int) == jobs0,
                                forall|i: int|
                                    jobs0.len() <= i < jobs@.len() ==> artifact_path_ok(
                                        (#[trigger] jobs@[i])@,
                                    ),
                                no_marked(v0) ==> jobs@ == jobs0,
                                !(self.embed is PngFile) ==> jobs@ == jobs0,
                            decreases fs@.len(),
                        {
                            let ghost k = gs@.len() as int;
                            proof {
                                assert(ofs.skip(k)[0] == ofs[k]);
                                assert(ofs.skip(k).skip(1) =~= ofs.skip(k + 1));
                            }
                            let (key, val) = fs.remove(0);
                            proof {
                                assert((key, val) == ofs[k]);
                                assert(val == v0->Obj_0@[k].1);
                                assert(decreases_to!(v0 => val));
                                if no_marked(v0) {
                                    assert(no_marked(ofs[k].1));
                                }
                            }
                            let ghost jobs_pre = jobs@;
                            match self.process_value(val, jobs) {
                                Ok(nv) => {
                                    gs.push((key, nv));
                                    proof {
                                        assert(jobs@.take(jobs0.len() as int) =~= jobs_pre.take(
                                            jobs0.len() as int,
                                        ));
                                        assert forall|i: int|
                                            jobs0.len() <= i < jobs@.len() implies artifact_path_ok(
                                            (#[trigger] jobs@[i])@,
                                        ) by {
                                            if i < jobs_pre.len() {
                                                assert(jobs@.take(jobs_pre.len() as int)[i]
                                                    == jobs@[i]);
                                                assert(jobs@[i] == jobs_pre[i]);
                                            }
                                        }
                                    }
                                },
                                Err(e) => {
                                    proof {
                                        if no_marked(v0) {
                                            assert(no_marked(ofs[k].1));
                                            assert(false);
                                        }
                                        assert(jobs@.take(jobs0.len() as int) =~= jobs_pre.take(
                                            jobs0.len() as int,
                                        ));
                                        assert forall|i: int|
                                            jobs0.len() <= i < jobs@.len() implies artifact_path_ok(
                                            (#[trigger] jobs@[i])@,
                                        ) by {
                                            if i < jobs_pre.len() {
                                                assert(jobs@.take(jobs_pre.len() as int)[i]
                                                    == jobs@[i]);
                                                assert(jobs@[i] == jobs_pre[i]);
                                            }
                                        }
                                    }
                                    return Err(e);
                                },
                            }
                        }
                        proof {
                            assert(ofs.len() == gs@.len());
                            assert(replaces(v0, DocValue::Obj(gs), self.embed));
                        }
                        Ok(DocValue::Obj(gs))
                    },
                }
            },
        }
    }

    /// Rewrite the whole document tree in place: every marked node is
    /// replaced by its block, every other node is kept, and the vector
    /// artifacts still awaiting raster conversion are appended to
    /// `jobs`. A document without marked nodes is returned unchanged
    /// with no jobs added, and the inline mode never fails.
    pub fn process_doc(&self, value: &mut DocValue, jobs: &mut Vec<String>) -> (r: Result<
        (),
        String,
    >)
        ensures
            r is Ok ==> replaces(*old(value), *final(value), self.embed),
            no_marked(*old(value)) ==> r is Ok && same(*old(value), *final(value)) && final(jobs)@
                == old(jobs)@,
            self.embed is Inline ==> r is Ok,
            final(jobs)@.len() >= old(jobs)@.len(),
            final(jobs)@.take(old(jobs)@.len() as int) == old(jobs)@,
            forall|i: int|
                old(jobs)@.len() <= i < final(jobs)@.len() ==> artifact_path_ok(
                    (#[trigger] final(jobs)@[i])@,
                ),
            !(self.embed is PngFile) ==> final(jobs)@ == old(jobs)@,
    {
        let mut tmp = DocValue::Null;
        core::mem::swap(value, &mut tmp);
        match self.process_value(tmp, jobs) {
            Ok(nv) => {
                *value = nv;
                proof {
                    if no_marked(*old(value)) {
                        lemma_rewrite_unmarked_identity(*old(value), *value, self.embed);
                    }
                }
                Ok(())
            },
            Err(e) => Err(e),
        }
    }
}

/// Every vector artifact queued for raster conversion has a derivable
/// raster name, and it is exactly the name the rewritten tree links to.
pub proof fn lemma_job_paths_convertible(p: Seq<char>)
    requires
        artifact_path_ok(p),
    ensures
        png_path_of(p) == Some(png_name(p)),
{
    crate::convert::lemma_svg_path_convertible(p);
}

/// A render failure is replaced by the same visible raw block whatever
/// the embedding mode in effect: error visibility is mode-invariant.
pub proof fn lemma_error_block_mode_invariant(
    nfs: Seq<(String, DocValue)>,
    content: Seq<char>,
    e1: EmbedType,
    e2: EmbedType,
)
    requires
        svgdx_transform(content) is Err,
    ensures
        block_for(nfs, content, e1) == block_for(nfs, content, e2),
{
}

proof fn lemma_replaces_to_str(a: DocValue, s: String, e: EmbedType)
    requires
        replaces(a, DocValue::Str(s), e),
    ensures
        a matches DocValue::Str(t) && t@ == s@,
{
    match a {
        DocValue::Str(t) => {},
        _ => {
            assert(false);
        },
    }
}

proof fn lemma_replaces_to_arr(a: DocValue, ys: Vec<DocValue>, e: EmbedType)
    requires
        replaces(a, DocValue::Arr(ys), e),
    ensures
        a matches DocValue::Arr(xs) && xs@.len() == ys@.len() && (forall|i: int|
            0 <= i < ys@.len() ==> replaces(#[trigger] a->Arr_0@[i], ys@[i], e)),
{
    match a {
        DocValue::Arr(xs) => {},
        _ => {
            assert(false);
        },
    }
}

proof fn lemma_lookup_replaces(
    fs: Seq<(String, DocValue)>,
    gs: Seq<(String, DocValue)>,
    key: Seq<char>,
    e: EmbedType,
)
    requires
        gs.len() == fs.len(),
        forall|i: int|
            0 <= i < fs.len() ==> (#[trigger] fs[i]).0@ == gs[i].0@ && replaces(
                fs[i].1,
                gs[i].1,
                e,
            ),
    ensures
        lookup(fs, key) is Some <==> lookup(gs, key) is Some,
        lookup(fs, key) is Some ==> lookup(gs, key) is Some && replaces(
            lookup(fs, key)->0,
            lookup(gs, key)->0,
            e,
        ),
    decreases fs.len(),
{
    if fs.len() == 0 {
    } else if fs[0].0@ == key {
        assert(gs[0].0@ == key);
    } else {
        assert(gs[0].0@ == fs[0].0@);
        let fs2 = fs.skip(1);
        let gs2 = gs.skip(1);
        assert forall|i: int|
            0 <= i < fs2.len() implies (#[trigger] fs2[i]).0@ == gs2[i].0@ && replaces(
            fs2[i].1,
            gs2[i].1,
            e,
        ) by {
            assert(fs2[i] == fs[i + 1]);
            assert(gs2[i] == gs[i + 1]);
        }
        lemma_lookup_replaces(fs2, gs2, key, e);
    }
}

proof fn lemma_replaces_reflects_marked(
    fs: Seq<(String, DocValue)>,
    gs: Seq<(String, DocValue)>,
    e: EmbedType,
)
    requires
        gs.len() == fs.len(),
        forall|i: int|
            0 <= i < fs.len() ==> (#[trigger] fs[i]).0@ == gs[i].0@ && replaces(
                fs[i].1,
                gs[i].1,
                e,
            ),
        is_marked(gs),
    ensures
        is_marked(fs),
{
    lemma_lookup_replaces(fs, gs, "t"@, e);
    lemma_lookup_replaces(fs, gs, "c"@, e);
    let tag_g = lookup(gs, "t"@)->0;
    let tag_f = lookup(fs, "t"@)->0;
    assert(tag_g matches DocValue::Str(tg) && tg@ == "CodeBlock"@);
    lemma_replaces_to_str(tag_f, tag_g->Str_0, e);
    let c_g = lookup(gs, "c"@)->0;
    let c_f = lookup(fs, "c"@)->0;
    assert(c_g matches DocValue::Arr(inner) && inner@.len() == 2);
    let inner_g = c_g->Arr_0;
    lemma_replaces_to_arr(c_f, inner_g, e);
    let inner_f = c_f->Arr_0;
    assert(inner_g@[0] matches DocValue::Arr(meta) && meta@.len() == 3);
    assert(replaces(inner_f@[0], inner_g@[0], e));
    lemma_replaces_to_arr(inner_f@[0], inner_g@[0]->Arr_0, e);
    let meta_g = inner_g@[0]->Arr_0;
    let meta_f = inner_f@[0]->Arr_0;
    assert(meta_g@[1] matches DocValue::Arr(classes) && classes@.len() >= 1);
    assert(replaces(meta_f@[1], meta_g@[1], e));
    lemma_replaces_to_arr(meta_f@[1], meta_g@[1]->Arr_0, e);
    let classes_g = meta_g@[1]->Arr_0;
    let classes_f = meta_f@[1]->Arr_0;
    assert(classes_g@[0] matches DocValue::Str(cl) && cl@ == "svgdx"@);
    assert(replaces(classes_f@[0], classes_g@[0], e));
    lemma_replaces_to_str(classes_f@[0], classes_g@[0]->Str_0, e);
    assert(inner_g@[1] matches DocValue::Str(content));
    assert(replaces(inner_f@[1], inner_g@[1], e));
    lemma_replaces_to_str(inner_f@[1], inner_g@[1]->Str_0, e);
    assert(marked_content(fs) is Some);
}

/// The output of a rewrite contains no marked node: replacements are
/// never themselves marked, and rewriting the children of an unmarked
/// mapping cannot make it marked.
pub proof fn lemma_rewrite_output_unmarked(a: DocValue, b: DocValue, embed: EmbedType)
    requires
        replaces(a, b, embed),
    ensures
        no_marked(b),
    decreases a,
{
    match a {
        DocValue::Arr(xs) => {
            let ys = b->Arr_0;
            assert forall|i: int| 0 <= i < ys@.len() implies no_marked(#[trigger] ys@[i]) by {
                assert(replaces(xs@[i], ys@[i], embed));
                lemma_rewrite_output_unmarked(xs@[i], ys@[i], embed);
            }
        },
        DocValue::Obj(fs) => {
            let gs = b->Obj_0;
            if is_marked(fs@) {
                let content = marked_content(fs@)->0;
                assert(block_for(gs@, content, embed));
                match svgdx_transform(content) {
                    Result::Err(msg) => {
                        lemma_raw_block_unmarked(gs@, error_html(msg));
                    },
                    Result::Ok(svg) => {
                        match embed {
                            EmbedType::Inline => {
                                lemma_raw_block_unmarked(gs@, sanitize(svg));
                            },
                            EmbedType::SvgFile => {
                                let p = choose|p: Seq<char>|
                                    #[trigger] artifact_path_ok(p) && is_para_image(gs@, p);
                                lemma_para_image_unmarked(gs@, p);
                            },
                            EmbedType::PngFile => {
                                let p = choose|p: Seq<char>|
                                    #[trigger] artifact_path_ok(p) && is_para_image(
                                        gs@,
                                        png_name(p),
                                    );
                                lemma_para_image_unmarked(gs@, png_name(p));
                            },
                        }
                    },
                }
            } else {
                if is_marked(gs@) {
                    lemma_replaces_reflects_marked(fs@, gs@, embed);
                    assert(false);
                }
                assert forall|i: int|
                    0 <= i < gs@.len() implies no_marked((#[trigger] gs@[i]).1) by {
                    assert(replaces(fs@[i].1, gs@[i].1, embed));
                    lemma_rewrite_output_unmarked(fs@[i].1, gs@[i].1, embed);
                }
            }
        },
        _ => {},
    }
}

/// Rewriting is idempotent: a second run over the output of a rewrite,
/// under any embedding mode, leaves it structurally unchanged, because
/// the first run's output contains no marked node.
pub proof fn lemma_rewrite_idempotent(
    a: DocValue,
    b: DocValue,
    c: DocValue,
    e1: EmbedType,
    e2: EmbedType,
)
    requires
        replaces(a, b, e1),
        replaces(b, c, e2),
    ensures
        same(b, c),
{
    lemma_rewrite_output_unmarked(a, b, e1);
    lemma_rewrite_unmarked_identity(b, c, e2);
}

/// A rewrite leaves a tree without marked nodes structurally unchanged:
/// the traversal is a no-op on unmatched content, and a run over an
/// already-filtered document is a fixed point.
pub proof fn lemma_rewrite_unmarked_identity(a: DocValue, b: DocValue, embed: EmbedType)
    requires
        no_marked(a),
        replaces(a, b, embed),
    ensures
        same(a, b),
    decreases a,
{
    match a {
        DocValue::Arr(xs) => {
            let ys = b->Arr_0;
            assert forall|i: int| 0 <= i < xs@.len() implies same(#[trigger] xs@[i], ys@[i]) by {
                assert(no_marked(xs@[i]));
                assert(replaces(xs@[i], ys@[i], embed));
                lemma_rewrite_unmarked_identity(xs@[i], ys@[i], embed);
            }
        },
        DocValue::Obj(fs) => {
            assert(!is_marked(fs@));
            let gs = b->Obj_0;
            assert forall|i: int|
                0 <= i < fs@.len() implies (#[trigger] fs@[i]).0@ == gs@[i].0@ && same(
                fs@[i].1,
                gs@[i].1,
            ) by {
                assert(no_marked(fs@[i].1));
                assert(replaces(fs@[i].1, gs@[i].1, embed));
                lemma_rewrite_unmarked_identity(fs@[i].1, gs@[i].1, embed);
            }
        },
        _ => {},
    }
}

} // verus!
