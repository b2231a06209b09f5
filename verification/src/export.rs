//! Document export: the formats offered, and PDF bytes from the themed HTML
//! document through `ironpress`.
use vstd::prelude::*;

use std::path::{Path, PathBuf};

use ironpress::{HtmlConverter, IronpressError};

verus! {

/// An export target chosen from the application menu.
#[derive(Clone, Copy, Debug, PartialEq, Eq, Structural)]
pub enum ExportFormat {
    /// A full HTML document with the theme's CSS embedded.
    Html,
    /// PDF bytes rendered from the themed HTML document.
    Pdf,
}

impl ExportFormat {
    /// The file extension offered in the save dialog.
    pub fn extension(self) -> (res: &'static str)
        ensures
            res@ == match self {
                ExportFormat::Html => "html"@,
                ExportFormat::Pdf => "pdf"@,
            },
    {
        match self {
            ExportFormat::Html => "html",
            ExportFormat::Pdf => "pdf",
        }
    }
}

/// Why an export failed.
#[derive(Debug)]
pub enum ExportError {
    /// The HTML document could not be converted to PDF; the converter's
    /// message.
    PdfConversion(String),
}

/// `ironpress::HtmlConverter`, the HTML to PDF converter; opaque here.
#[verifier::external_type_specification]
#[verifier::external_body]
pub struct ExHtmlConverter(HtmlConverter);

/// `ironpress::IronpressError`, a conversion error; opaque here.
#[verifier::external_type_specification]
#[verifier::external_body]
pub struct ExIronpressError(IronpressError);

/// Whether a converter sanitizes the HTML it converts.
pub uninterp spec fn spec_converter_sanitizes(converter: HtmlConverter) -> bool;

/// The directory a converter resolves relative resources against, if any.
pub uninterp spec fn spec_converter_base(converter: HtmlConverter) -> Option<PathBuf>;

/// The owned copy of a path (`Path::to_path_buf`).
pub uninterp spec fn spec_owned_path(path: &Path) -> PathBuf;

/// Whether `bytes` are an outcome of converting `html` with `converter`.
pub uninterp spec fn spec_converted_by(converter: HtmlConverter, html: Seq<char>, bytes: Seq<
    u8,
>) -> bool;

/// Calls `HtmlConverter::new`. Trusted: a new converter sanitizes and has
/// no base path (its `sanitize` field starts `true`, its resource paths are
/// the default ones).
#[verifier::external_body]
fn converter_new() -> (res: HtmlConverter)
    ensures
        spec_converter_sanitizes(res),
        spec_converter_base(res) is None,
{
    HtmlConverter::new()
}

/// Calls `HtmlConverter::sanitize`. Trusted: it sets whether the converter
/// sanitizes and keeps its base path.
#[verifier::external_body]
fn converter_sanitize(converter: HtmlConverter, enabled: bool) -> (res: HtmlConverter)
    ensures
        spec_converter_sanitizes(res) == enabled,
        spec_converter_base(res) == spec_converter_base(converter),
{
    converter.sanitize(enabled)
}

/// Calls `HtmlConverter::base_path`. Trusted: it sets the base path to an
/// owned copy of `path` and keeps whether the converter sanitizes.
#[verifier::external_body]
fn converter_base_path(converter: HtmlConverter, path: &Path) -> (res: HtmlConverter)
    ensures
        spec_converter_sanitizes(res) == spec_converter_sanitizes(converter),
        spec_converter_base(res) == Some(spec_owned_path(path)),
{
    converter.base_path(path)
}

/// The converter for exported documents: it does not sanitize (the document
/// is the application's own) and resolves relative resources against
/// `base_path` when there is one.
pub fn pdf_converter(base_path: Option<&Path>) -> (res: HtmlConverter)
    ensures
        !spec_converter_sanitizes(res),
        spec_converter_base(res) == match base_path {
            Some(path) => Some(spec_owned_path(path)),
            None => None,
        },
{
    let converter = converter_sanitize(converter_new(), false);
    match base_path {
        Some(path) => converter_base_path(converter, path),
        None => converter,
    }
}

/// The header a PDF 1.4 file starts with: `%PDF-1.4` and a line feed.
pub open spec fn pdf_header() -> Seq<u8> {
    seq![0x25u8, 0x50u8, 0x44u8, 0x46u8, 0x2du8, 0x31u8, 0x2eu8, 0x34u8, 0x0au8]
}

/// Whether `bytes` start with the PDF 1.4 header.
pub open spec fn starts_with_pdf_header(bytes: Seq<u8>) -> bool {
    bytes.len() >= pdf_header().len() && bytes.subrange(0, pdf_header().len() as int)
        == pdf_header()
}

/// Calls `HtmlConverter::convert`. Trusted: converted bytes start with the
/// PDF 1.4 header (`convert` writes into an empty buffer, and the only write
/// of its render step begins with `%PDF-1.4` and a line feed); the rest of
/// the bytes, which depend on files and fonts read from the machine, and
/// when the conversion fails, are not stated; converted bytes are an outcome
/// of converting the HTML with this converter ([`spec_converted_by`]).
#[verifier::external_body]
fn converter_convert(converter: &HtmlConverter, html: &str) -> (res: Result<
    Vec<u8>,
    IronpressError,
>)
    ensures
        res matches Ok(bytes) ==> starts_with_pdf_header(bytes@),
        res matches Ok(bytes) ==> spec_converted_by(*converter, html@, bytes@),
{
    converter.convert(html)
}

/// Calls `ToString::to_string` on an `IronpressError` (its `Display`).
/// Trusted with no contract.
#[verifier::external_body]
fn ironpress_error_message(error: &IronpressError) -> String {
    error.to_string()
}

/// PDF bytes for a themed HTML document: converted by [`pdf_converter`],
/// without sanitizing (the document is the application's own) and resolving
/// relative resources against `base_path` when there is one. A failed
/// conversion is reported with the converter's message. The bytes of a
/// converted document are a PDF 1.4 file: they start with its header.
pub fn render_pdf_with_fonts(html: &str, base_path: Option<&Path>) -> (res: Result<
    Vec<u8>,
    ExportError,
>)
    ensures
        res matches Ok(bytes) ==> starts_with_pdf_header(bytes@),
        res matches Ok(bytes) ==> exists|converter: HtmlConverter|
            #[trigger] spec_converted_by(converter, html@, bytes@)
                && !spec_converter_sanitizes(converter) && spec_converter_base(converter)
                == match base_path {
                Some(path) => Some(spec_owned_path(path)),
                None => None,
            },
        res matches Err(e) ==> e is PdfConversion,
{
    let converter = pdf_converter(base_path);
    match converter_convert(&converter, html) {
        Ok(bytes) => {
            proof {
                assert(spec_converted_by(converter, html@, bytes@));
            }
            Ok(bytes)
        },
        Err(error) => Err(ExportError::PdfConversion(ironpress_error_message(&error))),
    }
}

} // verus!
