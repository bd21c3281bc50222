//! The converter resolver: selects the external raster-conversion backend
//! from probe results, and computes, for a vector file, the raster file
//! path and the exact command line that converts one into the other.
//! Running the command and probing the backends is external process work
//! and stays outside the library; the selection and the command built for
//! it are verified here.
use vstd::prelude::*;

verus! {

/// An external raster-conversion backend, in probe priority order, with a
/// fallback that always fails with a descriptive error.
#[derive(Clone, Copy, Debug, PartialEq, Eq, Structural)]
pub enum Backend {
    ImageMagick,
    Inkscape,
    Fallback,
}

/// One raster conversion to perform: the program and arguments to run,
/// and the raster file the run produces beside the source file.
#[derive(Debug, PartialEq, Eq)]
pub struct ConvertJob {
    pub program: String,
    pub args: Vec<String>,
    pub pngfile: String,
}

/// The index of the last occurrence of `c` in `p`, or -1 when absent.
pub open spec fn last_idx(p: Seq<char>, c: char) -> int
    decreases p.len(),
{
    if p.len() == 0 {
        -1
    } else if p[p.len() - 1] == c {
        p.len() - 1
    } else {
        last_idx(p.take(p.len() - 1), c)
    }
}

/// The raster path derived from a vector path: the file name's extension
/// replaced by `png`, or appended when the name has no extension. `None`
/// when no file name can be made out (an empty name, or a dot-only name),
/// since such a path names no file that an extension could be put on.
pub open spec fn png_path_of(p: Seq<char>) -> Option<Seq<char>> {
    let slash = last_idx(p, '/');
    let name = p.skip(slash + 1);
    if name.len() == 0 || name == "."@ || name == ".."@ {
        None
    } else {
        let dot = last_idx(name, '.');
        if dot <= 0 {
            Some(p + ".png"@)
        } else {
            Some(p.take(slash + 1 + dot) + ".png"@)
        }
    }
}

proof fn lemma_last_idx(p: Seq<char>, c: char)
    ensures
        -1 <= last_idx(p, c) < p.len(),
        last_idx(p, c) >= 0 ==> p[last_idx(p, c)] == c,
        forall|k: int| last_idx(p, c) < k < p.len() ==> p[k] != c,
    decreases p.len(),
{
    if p.len() == 0 {
    } else if p[p.len() - 1] == c {
    } else {
        let q = p.take(p.len() - 1);
        lemma_last_idx(q, c);
        assert(forall|k: int| 0 <= k < q.len() ==> q[k] == p[k]);
    }
}

/// For any path that ends in `.svg` with at least one name character
/// before the dot, a raster path can always be derived, and it is the
/// path with the `.svg` suffix replaced by `.png`.
pub proof fn lemma_svg_path_convertible(p: Seq<char>)
    requires
        p.len() >= 5,
        p[p.len() - 4] == '.',
        p[p.len() - 3] == 's',
        p[p.len() - 2] == 'v',
        p[p.len() - 1] == 'g',
        p[p.len() - 5] != '/',
        p[p.len() - 5] != '.',
    ensures
        png_path_of(p) == Some(p.take(p.len() - 4) + ".png"@),
{
    lemma_last_idx(p, '/');
    let slash = last_idx(p, '/');
    if slash >= p.len() - 5 {
        assert(p[slash] == '/');
        assert(false);
    }
    let name = p.skip(slash + 1);
    assert(name.len() == p.len() - slash - 1);
    assert(name.len() >= 5);
    reveal_strlit(".");
    reveal_strlit("..");
    assert("."@.len() == 1 && ".."@.len() == 2);
    lemma_last_idx(name, '.');
    let dot = last_idx(name, '.');
    assert(forall|i: int| 0 <= i < name.len() ==> name[i] == p[slash + 1 + i]);
    assert(name[name.len() - 4] == '.');
    assert(name[name.len() - 3] == 's' && name[name.len() - 2] == 'v' && name[name.len() - 1]
        == 'g');
    if dot < name.len() - 4 {
        assert(name[name.len() - 4] != '.');
        assert(false);
    }
    if dot > name.len() - 4 {
        assert(name[dot] == '.');
        assert(false);
    }
    assert(dot == name.len() - 4);
    assert(dot >= 1);
    assert(slash + 1 + dot == p.len() - 4);
}

/// The index of the last occurrence of `c` in `s`, scanning from the end.
fn find_last(s: &str, c: char) -> (r: Option<usize>)
    ensures
        match r {
            Some(j) => last_idx(s@, c) == j as int && (j as int) < s@.len(),
            None => last_idx(s@, c) == -1,
        },
{
    let n = s.unicode_len();
    let mut i: usize = n;
    proof {
        assert(s@.take(n as int) =~= s@);
    }
    while i > 0
        invariant
            n == s@.len(),
            0 <= i <= n,
            last_idx(s@, c) == last_idx(s@.take(i as int), c),
        decreases i,
    {
        proof {
            assert(s@.take(i as int)[i - 1] == s@[i as int - 1]);
            assert(s@.take(i as int).take(i as int - 1) =~= s@.take(i as int - 1));
        }
        if s.get_char(i - 1) == c {
            return Some(i - 1);
        }
        i -= 1;
    }
    proof {
        assert(s@.take(0) =~= Seq::<char>::empty());
    }
    None
}

/// Derive the raster file path for a vector file path, per `png_path_of`.
fn derive_png_path(p: &str) -> (r: Option<String>)
    ensures
        match r {
            Some(q) => png_path_of(p@) == Some(q@),
            None => png_path_of(p@) is None,
        },
{
    let n = p.unicode_len();
    let slash_end: usize = match find_last(p, '/') {
        Some(j) => j + 1,
        None => 0,
    };
    proof {
        lemma_last_idx(p@, '/');
        assert(p@.skip(slash_end as int) =~= p@.subrange(slash_end as int, n as int));
    }
    let name = p.substring_char(slash_end, n);
    let name_owned = String::from_str(name);
    if name.unicode_len() == 0 || name_owned == ".".to_owned() || name_owned == "..".to_owned() {
        return None;
    }
    let dot = match find_last(name, '.') {
        Some(d) => d,
        None => 0,
    };
    proof {
        lemma_last_idx(name@, '.');
    }
    if dot == 0 {
        Some(String::from_str(p).concat(".png"))
    } else {
        proof {
            assert(p@.subrange(0, slash_end as int + dot as int) =~= p@.take(
                slash_end as int + dot as int,
            ));
        }
        let stem = p.substring_char(0, slash_end + dot);
        Some(String::from_str(stem).concat(".png"))
    }
}

/// The backend that the probe results select: the first available backend
/// in priority order, else the fallback.
pub open spec fn chosen_backend(magick: bool, inkscape: bool) -> Backend {
    if magick {
        Backend::ImageMagick
    } else if inkscape {
        Backend::Inkscape
    } else {
        Backend::Fallback
    }
}

/// Whether `job` is the conversion command owed for backend `b`, vector
/// path `svg` and raster path `png`.
pub open spec fn job_for(job: ConvertJob, b: Backend, svg: Seq<char>, png: Seq<char>) -> bool {
    &&& job.pngfile@ == png
    &&& match b {
        Backend::ImageMagick => {
            &&& job.program@ == "magick"@
            &&& job.args@.len() == 4
            &&& job.args@[0]@ == "-density"@
            &&& job.args@[1]@ == "300"@
            &&& job.args@[2]@ == svg
            &&& job.args@[3]@ == png
        },
        Backend::Inkscape => {
            &&& job.program@ == "inkscape"@
            &&& job.args@.len() == 5
            &&& job.args@[0]@ == "--export-type=png"@
            &&& job.args@[1]@ == "--export-dpi=300"@
            &&& job.args@[2]@ == "--export-filename"@
            &&& job.args@[3]@ == png
            &&& job.args@[4]@ == svg
        },
        Backend::Fallback => false,
    }
}

/// The resolved raster converter: holds the backend selected once per
/// run from the probe results.
pub struct PngConverter {
    pub converter: Backend,
}

impl PngConverter {
    /// Select the first available backend in priority order; when none is
    /// available, the fallback handle is selected, and every conversion
    /// through it reports its descriptive error.
    pub fn new(magick_available: bool, inkscape_available: bool) -> (r: Self)
        ensures
            r.converter == chosen_backend(magick_available, inkscape_available),
    {
        let converter = if magick_available {
            Backend::ImageMagick
        } else if inkscape_available {
            Backend::Inkscape
        } else {
            Backend::Fallback
        };
        PngConverter { converter }
    }

    /// Plan the conversion of a vector file to a raster file: derive the
    /// raster path beside the source and build the selected backend's
    /// command line. Fails when no raster name can be derived, or when
    /// only the fallback backend is available.
    pub fn to_png(&self, svgfile: &str) -> (r: Result<ConvertJob, String>)
        ensures
            png_path_of(svgfile@) is None ==> (r matches Err(m) && m@
                == "Failed to derive SVG filename"@),
            png_path_of(svgfile@) is Some && self.converter == Backend::Fallback ==> (r matches Err(
                m,
            ) && m@ == "No supported SVG to PNG converter found"@),
            png_path_of(svgfile@) is Some && self.converter != Backend::Fallback ==> (
            r matches Ok(job) && job_for(job, self.converter, svgfile@, png_path_of(svgfile@)->0)),
    {
        let pngfile = match derive_png_path(svgfile) {
            Some(q) => q,
            None => {
                return Err("Failed to derive SVG filename".to_owned());
            },
        };
        match self.converter {
            Backend::Fallback => Err("No supported SVG to PNG converter found".to_owned()),
            Backend::ImageMagick => {
                let mut args: Vec<String> = Vec::new();
                args.push("-density".to_owned());
                args.push("300".to_owned());
                args.push(svgfile.to_owned());
                args.push(pngfile.clone());
                Ok(ConvertJob { program: "magick".to_owned(), args, pngfile })
            },
            Backend::Inkscape => {
                let mut args: Vec<String> = Vec::new();
                args.push("--export-type=png".to_owned());
                args.push("--export-dpi=300".to_owned());
                args.push("--export-filename".to_owned());
                args.push(pngfile.clone());
                args.push(svgfile.to_owned());
                Ok(ConvertJob { program: "inkscape".to_owned(), args, pngfile })
            },
        }
    }
}

} // verus!
