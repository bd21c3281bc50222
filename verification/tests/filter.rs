use svgdx_pandoc::convert::{Backend, PngConverter};
use svgdx_pandoc::doc::DocValue;
use svgdx_pandoc::plugin::SvgdxPlugin;
use svgdx_pandoc::render::{svgdx_handler, TransformResult};
use svgdx_pandoc::strategy::EmbedType;
use svgdx_pandoc::text::{blank_line_remover, error_format};

const DIV_OPEN: &str = "<div style=\"color: red; border: 5px double red; padding: 1em;\">";
const GOOD_INPUT: &str = "<rect xy=\"1 2\" wh=\"3 4\"/>";
const GOOD_OUTPUT: &str = "<rect x=\"1\" y=\"2\" width=\"3\" height=\"4\"/>";
const BAD_INPUT: &str = "<svg>\n<rect>\n</svg>";

fn marked_block(content: &str) -> DocValue {
    DocValue::Obj(vec![
        ("t".to_string(), DocValue::Str("CodeBlock".to_string())),
        (
            "c".to_string(),
            DocValue::Arr(vec![
                DocValue::Arr(vec![
                    DocValue::Str(String::new()),
                    DocValue::Arr(vec![DocValue::Str("svgdx".to_string())]),
                    DocValue::Arr(vec![]),
                ]),
                DocValue::Str(content.to_string()),
            ]),
        ),
    ])
}

fn wrap_doc(block: DocValue) -> DocValue {
    DocValue::Obj(vec![(
        "blocks".to_string(),
        DocValue::Arr(vec![block]),
    )])
}

fn plugin_for(format: &str) -> SvgdxPlugin {
    SvgdxPlugin::new(EmbedType::from(format.to_string()), None)
}

fn block_of(doc: &DocValue) -> &DocValue {
    match doc {
        DocValue::Obj(fs) => match &fs[0].1 {
            DocValue::Arr(items) => &items[0],
            other => panic!("expected array of blocks, got {other:?}"),
        },
        other => panic!("expected object document, got {other:?}"),
    }
}

fn image_path(block: &DocValue) -> String {
    // {"t":"Para","c":[{"t":"Image","c":[["",[],[]],[],[path,""]]}]}
    let fs = match block {
        DocValue::Obj(fs) => fs,
        other => panic!("expected Para object, got {other:?}"),
    };
    assert_eq!(fs[0].0, "t");
    assert_eq!(fs[0].1, DocValue::Str("Para".to_string()));
    let inner = match &fs[1].1 {
        DocValue::Arr(items) => items,
        other => panic!("expected Para contents, got {other:?}"),
    };
    let img = match &inner[0] {
        DocValue::Obj(fs) => fs,
        other => panic!("expected Image object, got {other:?}"),
    };
    assert_eq!(img[0].1, DocValue::Str("Image".to_string()));
    let c = match &img[1].1 {
        DocValue::Arr(items) => items,
        other => panic!("expected Image contents, got {other:?}"),
    };
    let tgt = match &c[2] {
        DocValue::Arr(items) => items,
        other => panic!("expected Image target, got {other:?}"),
    };
    match &tgt[0] {
        DocValue::Str(p) => p.clone(),
        other => panic!("expected path string, got {other:?}"),
    }
}

#[test]
fn embed_type_inline_formats() {
    assert_eq!(EmbedType::from("markdown".to_string()), EmbedType::Inline);
    assert_eq!(EmbedType::from("html".to_string()), EmbedType::Inline);
    assert_eq!(EmbedType::from("epub".to_string()), EmbedType::Inline);
}

#[test]
fn embed_type_raster_formats() {
    assert_eq!(EmbedType::from("docx".to_string()), EmbedType::PngFile);
    assert_eq!(EmbedType::from("pptx".to_string()), EmbedType::PngFile);
}

#[test]
fn embed_type_default_vector() {
    assert_eq!(EmbedType::from("pdf".to_string()), EmbedType::SvgFile);
    assert_eq!(EmbedType::from(String::new()), EmbedType::SvgFile);
    assert_eq!(EmbedType::from("latex".to_string()), EmbedType::SvgFile);
}

#[test]
fn blank_line_remover_drops_blank_lines() {
    assert_eq!(blank_line_remover("a\n\n b \nc"), "a\n b \nc");
    assert_eq!(blank_line_remover("a\n \t \nc"), "a\nc");
}

#[test]
fn blank_line_remover_crlf() {
    assert_eq!(blank_line_remover("a\r\n\r\nb"), "a\nb");
}

#[test]
fn blank_line_remover_empty() {
    assert_eq!(blank_line_remover(""), "");
    assert_eq!(blank_line_remover("\n\n"), "");
    assert_eq!(blank_line_remover(" \t \n\u{a0}\n"), "");
}

#[test]
fn blank_line_remover_trailing_newline() {
    assert_eq!(blank_line_remover("a\n"), "a");
}

#[test]
fn error_format_wraps_and_breaks() {
    assert_eq!(
        error_format("x\ny"),
        format!("{DIV_OPEN}x<br/>y</div>")
    );
}

#[test]
fn error_format_plain() {
    assert_eq!(error_format("oops"), format!("{DIV_OPEN}oops</div>"));
}

#[test]
fn svgdx_handler_success_is_rendered_markup() {
    match svgdx_handler(GOOD_INPUT) {
        TransformResult::Svg(s) => assert_eq!(s, GOOD_OUTPUT),
        TransformResult::Error(e) => panic!("render unexpectedly failed: {e}"),
    }
}

#[test]
fn svgdx_handler_failure_is_error_div() {
    match svgdx_handler(BAD_INPUT) {
        TransformResult::Svg(s) => panic!("render unexpectedly succeeded: {s}"),
        TransformResult::Error(e) => {
            assert!(e.starts_with(DIV_OPEN));
            assert!(e.ends_with("</div>"));
        }
    }
}

#[test]
fn png_converter_prefers_imagemagick() {
    let conv = PngConverter::new(true, true);
    assert_eq!(conv.converter, Backend::ImageMagick);
    let job = conv.to_png("d/a.svg").unwrap();
    assert_eq!(job.program, "magick");
    assert_eq!(job.args, vec!["-density", "300", "d/a.svg", "d/a.png"]);
    assert_eq!(job.pngfile, "d/a.png");
}

#[test]
fn png_converter_falls_back_to_inkscape() {
    let conv = PngConverter::new(false, true);
    assert_eq!(conv.converter, Backend::Inkscape);
    let job = conv.to_png("a.svg").unwrap();
    assert_eq!(job.program, "inkscape");
    assert_eq!(
        job.args,
        vec![
            "--export-type=png",
            "--export-dpi=300",
            "--export-filename",
            "a.png",
            "a.svg"
        ]
    );
    assert_eq!(job.pngfile, "a.png");
}

#[test]
fn png_converter_no_backend_errors() {
    let conv = PngConverter::new(false, false);
    assert_eq!(conv.converter, Backend::Fallback);
    assert_eq!(
        conv.to_png("a.svg"),
        Err("No supported SVG to PNG converter found".to_string())
    );
}

#[test]
fn png_converter_underivable_name_errors() {
    let conv = PngConverter::new(true, false);
    assert_eq!(
        conv.to_png("dir/.."),
        Err("Failed to derive SVG filename".to_string())
    );
    assert_eq!(conv.to_png(""), Err("Failed to derive SVG filename".to_string()));
}

#[test]
fn png_converter_appends_extension_when_missing() {
    let conv = PngConverter::new(true, false);
    let job = conv.to_png("noext").unwrap();
    assert_eq!(job.pngfile, "noext.png");
}

#[test]
fn process_doc_no_marked_nodes_is_identity() {
    let original = wrap_doc(DocValue::Obj(vec![
        ("t".to_string(), DocValue::Str("Para".to_string())),
        (
            "c".to_string(),
            DocValue::Arr(vec![DocValue::Str("hello".to_string()), DocValue::Num("1.5".to_string())]),
        ),
    ]));
    let expected = wrap_doc(DocValue::Obj(vec![
        ("t".to_string(), DocValue::Str("Para".to_string())),
        (
            "c".to_string(),
            DocValue::Arr(vec![DocValue::Str("hello".to_string()), DocValue::Num("1.5".to_string())]),
        ),
    ]));
    let mut doc = original;
    let mut jobs: Vec<String> = Vec::new();
    plugin_for("docx").process_doc(&mut doc, &mut jobs).unwrap();
    assert_eq!(doc, expected);
    assert!(jobs.is_empty());
}

#[test]
fn process_doc_ignores_other_class() {
    let mut block = marked_block("x = 1");
    if let DocValue::Obj(fs) = &mut block {
        if let DocValue::Arr(inner) = &mut fs[1].1 {
            if let DocValue::Arr(meta) = &mut inner[0] {
                meta[1] = DocValue::Arr(vec![DocValue::Str("python".to_string())]);
            }
        }
    }
    let expected = format!("{block:?}");
    let mut doc = wrap_doc(block);
    let mut jobs: Vec<String> = Vec::new();
    plugin_for("html").process_doc(&mut doc, &mut jobs).unwrap();
    assert_eq!(format!("{:?}", block_of(&doc)), expected);
    assert!(jobs.is_empty());
}

#[test]
fn process_doc_ignores_wrong_arity() {
    let block = DocValue::Obj(vec![
        ("t".to_string(), DocValue::Str("CodeBlock".to_string())),
        ("c".to_string(), DocValue::Arr(vec![DocValue::Str("lonely".to_string())])),
    ]);
    let expected = format!("{block:?}");
    let mut doc = wrap_doc(block);
    let mut jobs: Vec<String> = Vec::new();
    plugin_for("html").process_doc(&mut doc, &mut jobs).unwrap();
    assert_eq!(format!("{:?}", block_of(&doc)), expected);
    assert!(jobs.is_empty());
}

#[test]
fn inline_mode_embeds_rendered_markup() {
    let mut doc = wrap_doc(marked_block(GOOD_INPUT));
    let mut jobs: Vec<String> = Vec::new();
    plugin_for("html").process_doc(&mut doc, &mut jobs).unwrap();
    let expected = DocValue::Obj(vec![
        ("t".to_string(), DocValue::Str("RawBlock".to_string())),
        (
            "c".to_string(),
            DocValue::Arr(vec![
                DocValue::Str("html".to_string()),
                DocValue::Str(GOOD_OUTPUT.to_string()),
            ]),
        ),
    ]);
    assert_eq!(*block_of(&doc), expected);
    assert!(jobs.is_empty());
}

#[test]
fn render_failure_becomes_error_block_inline() {
    let mut doc = wrap_doc(marked_block(BAD_INPUT));
    let mut jobs: Vec<String> = Vec::new();
    plugin_for("html").process_doc(&mut doc, &mut jobs).unwrap();
    match block_of(&doc) {
        DocValue::Obj(fs) => {
            assert_eq!(fs[0].1, DocValue::Str("RawBlock".to_string()));
            match &fs[1].1 {
                DocValue::Arr(c) => match &c[1] {
                    DocValue::Str(m) => assert!(m.starts_with(DIV_OPEN)),
                    other => panic!("expected markup string, got {other:?}"),
                },
                other => panic!("expected RawBlock contents, got {other:?}"),
            }
        }
        other => panic!("expected RawBlock object, got {other:?}"),
    }
    assert!(jobs.is_empty());
}

#[test]
fn render_failure_becomes_error_block_in_file_modes_too() {
    // error visibility must not depend on the embedding mode
    for format in ["pdf", "docx"] {
        let mut doc = wrap_doc(marked_block(BAD_INPUT));
        let mut jobs: Vec<String> = Vec::new();
        plugin_for(format).process_doc(&mut doc, &mut jobs).unwrap();
        match block_of(&doc) {
            DocValue::Obj(fs) => {
                assert_eq!(fs[0].1, DocValue::Str("RawBlock".to_string()));
            }
            other => panic!("expected RawBlock object, got {other:?}"),
        }
        assert!(jobs.is_empty());
    }
}

#[test]
fn vector_mode_links_svg_file() {
    let mut doc = wrap_doc(marked_block(GOOD_INPUT));
    let mut jobs: Vec<String> = Vec::new();
    plugin_for("pdf").process_doc(&mut doc, &mut jobs).unwrap();
    let path = image_path(block_of(&doc));
    assert!(path.ends_with(".svg"), "path {path} should end in .svg");
    assert!(jobs.is_empty());
}

#[test]
fn raster_mode_links_png_and_queues_conversion() {
    let mut doc = wrap_doc(marked_block(GOOD_INPUT));
    let mut jobs: Vec<String> = Vec::new();
    plugin_for("docx").process_doc(&mut doc, &mut jobs).unwrap();
    let path = image_path(block_of(&doc));
    assert!(path.ends_with(".png"), "path {path} should end in .png");
    assert_eq!(jobs.len(), 1);
    let svg = &jobs[0];
    assert!(svg.ends_with(".svg"), "job {svg} should end in .svg");
    let stem = &svg[..svg.len() - 4];
    assert_eq!(path, format!("{stem}.png"));
    // the planned conversion produces exactly the linked file
    let job = PngConverter::new(true, false).to_png(svg).unwrap();
    assert_eq!(job.pngfile, path);
}

#[test]
fn raster_mode_without_backend_is_fatal() {
    // with no backend available the conversion of a queued artifact is
    // refused, and the caller aborts the run instead of emitting output
    let mut doc = wrap_doc(marked_block(GOOD_INPUT));
    let mut jobs: Vec<String> = Vec::new();
    plugin_for("docx").process_doc(&mut doc, &mut jobs).unwrap();
    assert_eq!(jobs.len(), 1);
    let conv = PngConverter::new(false, false);
    assert_eq!(
        conv.to_png(&jobs[0]),
        Err("No supported SVG to PNG converter found".to_string())
    );
}

#[test]
fn rerunning_on_output_is_fixed_point() {
    let mut doc = wrap_doc(marked_block(GOOD_INPUT));
    let mut jobs: Vec<String> = Vec::new();
    plugin_for("html").process_doc(&mut doc, &mut jobs).unwrap();
    let after_first = format!("{doc:?}");
    plugin_for("html").process_doc(&mut doc, &mut jobs).unwrap();
    assert_eq!(format!("{doc:?}"), after_first);
    assert!(jobs.is_empty());
}
