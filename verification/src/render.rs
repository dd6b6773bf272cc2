//! What is drawn or written out by other crates: QR codes and sizes for
//! people.

use qrcode::render::svg::Color;
use qrcode::types::QrError;
use vstd::prelude::*;

verus! {

/// The least width and height of a QR code, in pixels.
pub const QR_SIDE: u32 = 180;

/// Why a text cannot be made into a QR code.
#[derive(Clone, Copy, PartialEq, Eq, Structural, Debug)]
pub enum QrFault {
    /// The text is too long.
    DataTooLong,
    /// The version and the level of error correction do not go together.
    InvalidVersion,
    /// The version does not have some character.
    UnsupportedCharacterSet,
    /// An ECI designator is out of range.
    InvalidEciDesignator,
    /// A character is not in the character set.
    InvalidCharacter,
}

impl QrFault {
    /// The fault in words.
    pub open spec fn words(self) -> Seq<char> {
        match self {
            QrFault::DataTooLong => "data too long"@,
            QrFault::InvalidVersion => "invalid version"@,
            QrFault::UnsupportedCharacterSet => "unsupported character set"@,
            QrFault::InvalidEciDesignator => "invalid ECI designator"@,
            QrFault::InvalidCharacter => "invalid character"@,
        }
    }

    /// The fault in words.
    pub fn message(self) -> (text: String)
        ensures
            text@ == self.words(),
    {
        let text = match self {
            QrFault::DataTooLong => "data too long",
            QrFault::InvalidVersion => "invalid version",
            QrFault::UnsupportedCharacterSet => "unsupported character set",
            QrFault::InvalidEciDesignator => "invalid ECI designator",
            QrFault::InvalidCharacter => "invalid character",
        };
        text.to_owned()
    }
}

/// What `humansize::format_size` writes for a number of bytes, with its
/// `BINARY` options.
pub uninterp spec fn human_size(size: u64) -> Seq<char>;

/// What the `qrcode` crate draws for `data`: an SVG image at least `side`
/// pixels wide and high, in the colours `dark` and `light`.
pub uninterp spec fn qr_image(
    data: Seq<u8>,
    side: u32,
    dark: Seq<char>,
    light: Seq<char>,
) -> Result<Seq<char>, QrFault>;

/// A size for people to read, from `humansize::format_size` with the options
/// `BINARY`. All that is claimed is that the text depends on the size alone.
#[verifier::external_body]
pub(crate) fn format_size(size: u64) -> (text: String)
    ensures
        text@ == human_size(size),
{
    humansize::format_size(size, humansize::BINARY)
}

/// A QR code of `data` as an SVG image, from `qrcode::QrCode::new` and the
/// renderer of its result. All that is claimed is that the image, or the fault,
/// depends on the arguments alone.
#[verifier::external_body]
pub(crate) fn draw_qr(data: &[u8], side: u32, dark: &str, light: &str) -> (image: Result<
    String,
    QrFault,
>)
    requires
        side <= 0x1000_0000,
    ensures
        match image {
            Ok(svg) => qr_image(data@, side, dark@, light@) == Ok::<Seq<char>, QrFault>(svg@),
            Err(fault) => qr_image(data@, side, dark@, light@) == Err::<Seq<char>, QrFault>(fault),
        },
{
    match qrcode::QrCode::new(data) {
        Ok(code) => Ok(
            code.render().min_dimensions(side, side).dark_color(Color(dark)).light_color(
                Color(light),
            ).build(),
        ),
        Err(QrError::DataTooLong) => Err(QrFault::DataTooLong),
        Err(QrError::InvalidVersion) => Err(QrFault::InvalidVersion),
        Err(QrError::UnsupportedCharacterSet) => Err(QrFault::UnsupportedCharacterSet),
        Err(QrError::InvalidEciDesignator) => Err(QrFault::InvalidEciDesignator),
        Err(QrError::InvalidCharacter) => Err(QrFault::InvalidCharacter),
    }
}

/// The QR code of an address, in the colours of the app.
pub open spec fn link_qr(url: Seq<char>) -> Result<Seq<char>, QrFault> {
    qr_image(vstd::utf8::encode_utf8(url), QR_SIDE, "#0a0a0f"@, "#ffffff"@)
}

/// The QR code of an address, or nothing where it has none.
pub open spec fn link_qr_or_nothing(url: Seq<char>) -> Seq<char> {
    match link_qr(url) {
        Ok(svg) => svg,
        Err(_) => Seq::empty(),
    }
}

/// The result of drawing a QR code, with the fault in words.
pub open spec fn in_words(image: Result<Seq<char>, QrFault>) -> Result<Seq<char>, Seq<char>> {
    match image {
        Ok(svg) => Ok(svg),
        Err(fault) => Err(fault.words()),
    }
}

/// Puts the fault of a drawing in words.
pub fn explain_qr(image: Result<String, QrFault>) -> (r: Result<String, String>)
    ensures
        match image {
            Ok(svg) => r == Ok::<String, String>(svg),
            Err(fault) => r matches Err(text) && text@ == fault.words(),
        },
{
    match image {
        Ok(svg) => Ok(svg),
        Err(fault) => Err(fault.message()),
    }
}

/// Draws the QR code of an address.
pub fn make_qr(url: &str) -> (r: Result<String, String>)
    ensures
        match r {
            Ok(svg) => in_words(link_qr(url@)) == Ok::<Seq<char>, Seq<char>>(svg@),
            Err(text) => in_words(link_qr(url@)) == Err::<Seq<char>, Seq<char>>(text@),
        },
{
    explain_qr(draw_qr(url.as_bytes(), QR_SIDE, "#0a0a0f", "#ffffff"))
}

} // verus!
