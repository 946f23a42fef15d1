use flow_state::kind::{preview_refresh, FileKind, PreviewRefresh};
use flow_state::latex::{
    compile_plan, compiler_args, extract_tex_error, launch_failure, preview_pages,
    rasterizer_args, rasterizer_failure,
};

#[test]
fn tex_error_quotes_the_first_error_line_and_context() {
    let log = "This is pdfTeX\n(./bad.tex\n! Undefined control sequence.\nl.1 \\badmacro\n\nmore\nand\nmore\nand more\n";
    assert_eq!(
        extract_tex_error(log),
        "! Undefined control sequence.\nl.1 \\badmacro\n\nmore\nand\nmore"
    );
}

#[test]
fn tex_error_without_a_bang_line_keeps_the_last_eight_lines() {
    let log = "1\n2\n3\n4\n5\n6\n7\n8\n9\n10";
    assert_eq!(extract_tex_error(log), "3\n4\n5\n6\n7\n8\n9\n10");
    assert_eq!(extract_tex_error("a\r\nb\r\n"), "a\nb");
    assert_eq!(extract_tex_error(""), "");
}

#[test]
fn compile_plan_derives_every_path_from_the_source() {
    let plan = compile_plan("/work/paper/doc.tex").unwrap();
    assert_eq!(plan.dir.as_deref(), Some("/work/paper"));
    assert_eq!(plan.file, "doc.tex");
    assert_eq!(plan.pdf, "/work/paper/doc.pdf");
    assert_eq!(plan.prefix, "/work/paper/doc.preview");
    assert_eq!(plan.pages_dir, "/work/paper");
    assert_eq!(plan.stem, "doc.preview");
    assert_eq!(
        compiler_args(&plan),
        vec!["-interaction=nonstopmode", "-halt-on-error", "doc.tex"]
    );
    assert_eq!(
        rasterizer_args(&plan),
        vec!["-png", "-r", "144", "-l", "50", "/work/paper/doc.pdf", "/work/paper/doc.preview"]
    );
    let bare = compile_plan("doc.tex").unwrap();
    assert_eq!(bare.dir, None);
    assert_eq!(bare.pages_dir, ".");
    assert_eq!(compile_plan("/").unwrap_err(), "bad path");
}

#[test]
fn preview_pages_are_the_matching_pngs_in_name_order() {
    let files = vec![
        "./doc.preview-10.png".to_string(),
        "./doc.preview-02.png".to_string(),
        "./doc.tex".to_string(),
        "./other-01.png".to_string(),
        "./doc.preview-01.png".to_string(),
    ];
    assert_eq!(
        preview_pages(&files, "doc.preview"),
        vec![
            "./doc.preview-01.png".to_string(),
            "./doc.preview-02.png".to_string(),
            "./doc.preview-10.png".to_string()
        ]
    );
}

#[test]
fn tool_failures_are_reported() {
    assert_eq!(rasterizer_failure("  bad pdf \n"), "pdftoppm failed: bad pdf");
    assert_eq!(launch_failure("pdflatex", "not found"), "failed to run pdflatex: not found");
}

#[test]
fn a_save_refreshes_the_preview_its_kind_calls_for() {
    assert_eq!(preview_refresh(FileKind::Plain, false), PreviewRefresh::Nothing);
    assert_eq!(preview_refresh(FileKind::Markdown, true), PreviewRefresh::RenderMarkdown);
    assert_eq!(preview_refresh(FileKind::Latex, false), PreviewRefresh::Compile);
    assert_eq!(preview_refresh(FileKind::Latex, true), PreviewRefresh::AlreadyCompiling);
}
