use velotype::export::{render_pdf_with_fonts, ExportFormat};

#[test]
fn export_formats_offer_their_extensions() {
    assert_eq!(ExportFormat::Html.extension(), "html");
    assert_eq!(ExportFormat::Pdf.extension(), "pdf");
}

#[test]
fn renders_pdf_bytes_from_a_themed_document() {
    let html = "<!DOCTYPE html><html><head><title>Doc</title><style>h1 { color: #333; }</style></head><body><h1>Title</h1><p>Body</p></body></html>";
    let pdf = render_pdf_with_fonts(html, None).expect("pdf should render");
    assert!(pdf.starts_with(b"%PDF-1.4\n"));
    let dir = std::path::Path::new(".");
    let with_base = render_pdf_with_fonts(html, Some(dir)).expect("pdf should render");
    assert!(with_base.starts_with(b"%PDF"));
}

#[test]
fn renders_pdf_bytes() {
    let html = "<!DOCTYPE html><html><head><title>Doc</title></head><body><h1>Title</h1><p>Body</p></body></html>";
    let pdf = render_pdf_with_fonts(html, None).expect("pdf should render");

    assert!(pdf.starts_with(b"%PDF"));
}

#[test]
fn renders_themed_pdf_for_rich_markdown() {
    let html = [
        "<!DOCTYPE html><html><head><title>Doc</title><style>",
        "body { font-family: sans-serif; color: #1f2328; }",
        "pre { background: #f6f8fa; padding: 8px; }",
        "code { font-family: monospace; }",
        "table { border-collapse: collapse; } td, th { border: 1px solid #d0d7de; }",
        "blockquote { border-left: 4px solid #d0d7de; padding-left: 8px; }",
        ".callout { border-left: 4px solid #0969da; padding: 8px; }",
        "</style></head><body>",
        "<h1>Title</h1>",
        "<p>Body text with <code>inline code</code>.</p>",
        "<pre><code class=\"language-rust\">fn main() {\n    println!(\"hi\");\n}\n</code></pre>",
        "<table><thead><tr><th>A</th><th>B</th></tr></thead>",
        "<tbody><tr><td>1</td><td>2</td></tr></tbody></table>",
        "<div class=\"callout\"><p><strong>Note</strong></p><p>Callout body</p></div>",
        "<blockquote><p>Quoted text</p></blockquote>",
        "</body></html>",
    ]
    .concat();
    let pdf = render_pdf_with_fonts(&html, None).expect("rich themed pdf should render");

    assert!(pdf.starts_with(b"%PDF"));
    assert!(pdf.len() > 1000);
}
