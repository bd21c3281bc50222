//! Embedding-strategy resolution: a total mapping from the target
//! output-format name to the way rendered content is embedded.
use vstd::prelude::*;

verus! {

/// How generated vector markup is embedded in the output document.
#[derive(Clone, Copy, Debug, PartialEq, Eq, Structural)]
pub enum EmbedType {
    /// inline markup within the document
    Inline,
    /// image link to a persistent vector-image file
    SvgFile,
    /// image link to a persistent raster file converted from the vector file
    PngFile,
}

/// The embedding mode chosen for an output-format name. The table is
/// total: formats whose viewers take inline markup embed directly, the
/// office formats take a raster link, and every other format - the empty
/// name included - falls back to a vector-file link.
pub open spec fn embed_of(s: Seq<char>) -> EmbedType {
    if s == "markdown"@ || s == "html"@ || s == "epub"@ {
        EmbedType::Inline
    } else if s == "docx"@ || s == "pptx"@ {
        EmbedType::PngFile
    } else {
        EmbedType::SvgFile
    }
}

impl From<String> for EmbedType {
    /// Resolve an output-format name to its embedding mode.
    fn from(s: String) -> (r: EmbedType) {
        if s == "markdown".to_owned() || s == "html".to_owned() || s == "epub".to_owned() {
            EmbedType::Inline
        } else if s == "docx".to_owned() || s == "pptx".to_owned() {
            EmbedType::PngFile
        } else {
            EmbedType::SvgFile
        }
    }
}

impl vstd::std_specs::convert::FromSpecImpl<String> for EmbedType {
    open spec fn obeys_from_spec() -> bool {
        true
    }

    open spec fn from_spec(s: String) -> EmbedType {
        embed_of(s@)
    }
}

} // verus!

