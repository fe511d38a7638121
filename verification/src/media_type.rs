//! Media types of the resources of a book.

use vstd::prelude::*;

use crate::text::str_is;

verus! {

/// The media type of a resource.
#[derive(Debug, Clone, PartialEq, Eq)]
pub enum MediaType {
    /// An XHTML content document.
    Xhtml,
    /// The navigation control file of EPUB 2.
    LegacyNcx,
    /// A SMIL media overlay.
    MediaOverlay,
    /// A style sheet.
    Css,
    /// A script.
    Js,
    /// A PNG image.
    ImagePng,
    /// A JPEG image.
    ImageJpeg,
    /// A GIF image.
    ImageGif,
    /// An SVG image.
    ImageSvg,
    /// A WebP image.
    ImageWebp,
    /// Ogg audio (Opus).
    AudioOgg,
    /// MP3 audio.
    AudioMpeg,
    /// MP4 audio.
    AudioMp4,
    /// An OpenType font.
    FontOtf,
    /// A TrueType font.
    FontTtf,
    /// An SFNT font.
    FontSfnt,
    /// A WOFF 2.0 font.
    FontWoff2,
    /// A WOFF font.
    FontWoff,
    /// Any type without a variant of its own, by the name it was given.
    Other(String),
}

/// The mathematical value of a media type.
pub ghost enum MediaTypeView {
    Xhtml,
    LegacyNcx,
    MediaOverlay,
    Css,
    Js,
    ImagePng,
    ImageJpeg,
    ImageGif,
    ImageSvg,
    ImageWebp,
    AudioOgg,
    AudioMpeg,
    AudioMp4,
    FontOtf,
    FontTtf,
    FontSfnt,
    FontWoff2,
    FontWoff,
    Other(Seq<char>),
}

impl View for MediaType {
    type V = MediaTypeView;

    open spec fn view(&self) -> MediaTypeView {
        match self {
            MediaType::Xhtml => MediaTypeView::Xhtml,
            MediaType::LegacyNcx => MediaTypeView::LegacyNcx,
            MediaType::MediaOverlay => MediaTypeView::MediaOverlay,
            MediaType::Css => MediaTypeView::Css,
            MediaType::Js => MediaTypeView::Js,
            MediaType::ImagePng => MediaTypeView::ImagePng,
            MediaType::ImageJpeg => MediaTypeView::ImageJpeg,
            MediaType::ImageGif => MediaTypeView::ImageGif,
            MediaType::ImageSvg => MediaTypeView::ImageSvg,
            MediaType::ImageWebp => MediaTypeView::ImageWebp,
            MediaType::AudioOgg => MediaTypeView::AudioOgg,
            MediaType::AudioMpeg => MediaTypeView::AudioMpeg,
            MediaType::AudioMp4 => MediaTypeView::AudioMp4,
            MediaType::FontOtf => MediaTypeView::FontOtf,
            MediaType::FontTtf => MediaTypeView::FontTtf,
            MediaType::FontSfnt => MediaTypeView::FontSfnt,
            MediaType::FontWoff2 => MediaTypeView::FontWoff2,
            MediaType::FontWoff => MediaTypeView::FontWoff,
            MediaType::Other(name) => MediaTypeView::Other(name@),
        }
    }
}

/// The known type that the name `s` stands for, if any. Each known type is
/// named by its registered name and by the older aliases in use for it.
pub open spec fn known_media_type(s: Seq<char>) -> Option<MediaTypeView> {
    if s == "font/otf"@ || s == "application/vnd.ms-opentype"@ {
        Some(MediaTypeView::FontOtf)
    } else if s == "font/ttf"@ {
        Some(MediaTypeView::FontTtf)
    } else if s == "font/woff2"@ {
        Some(MediaTypeView::FontWoff2)
    } else if s == "font/woff"@ || s == "application/font-woff"@ {
        Some(MediaTypeView::FontWoff)
    } else if s == "application/font-sfnt"@ {
        Some(MediaTypeView::FontSfnt)
    } else if s == "audio/ogg; codecs=opus"@ || s == "audio/ogg"@ {
        Some(MediaTypeView::AudioOgg)
    } else if s == "audio/mp4"@ {
        Some(MediaTypeView::AudioMp4)
    } else if s == "audio/mpeg"@ {
        Some(MediaTypeView::AudioMpeg)
    } else if s == "image/svg+xml"@ {
        Some(MediaTypeView::ImageSvg)
    } else if s == "image/webp"@ {
        Some(MediaTypeView::ImageWebp)
    } else if s == "image/jpeg"@ {
        Some(MediaTypeView::ImageJpeg)
    } else if s == "image/png"@ {
        Some(MediaTypeView::ImagePng)
    } else if s == "image/gif"@ {
        Some(MediaTypeView::ImageGif)
    } else if s == "application/x-dtbncx+xml"@ {
        Some(MediaTypeView::LegacyNcx)
    } else if s == "application/smil+xml"@ {
        Some(MediaTypeView::MediaOverlay)
    } else if s == "text/css"@ {
        Some(MediaTypeView::Css)
    } else if s == "text/javascript"@ || s == "application/javascript"@ || s == "application/ecmascript"@ {
        Some(MediaTypeView::Js)
    } else if s == "application/xhtml+xml"@ {
        Some(MediaTypeView::Xhtml)
    } else {
        None
    }
}

/// The media type that the name `s` stands for: a known type, or a type of
/// its own.
pub open spec fn spec_media_type(s: Seq<char>) -> MediaTypeView {
    match known_media_type(s) {
        Some(m) => m,
        None => MediaTypeView::Other(s),
    }
}

/// The name that the media type `m` is written with.
pub open spec fn spec_media_type_str(m: MediaTypeView) -> Seq<char> {
    match m {
        MediaTypeView::Other(name) => name,
        MediaTypeView::FontOtf => "font/otf"@,
        MediaTypeView::FontTtf => "font/ttf"@,
        MediaTypeView::FontSfnt => "application/font-sfnt"@,
        MediaTypeView::FontWoff2 => "font/woff2"@,
        MediaTypeView::FontWoff => "font/woff"@,
        MediaTypeView::AudioOgg => "audio/ogg; codecs=opus"@,
        MediaTypeView::AudioMpeg => "audio/mpeg"@,
        MediaTypeView::AudioMp4 => "audio/mp4"@,
        MediaTypeView::ImageSvg => "image/svg+xml"@,
        MediaTypeView::ImageWebp => "image/webp"@,
        MediaTypeView::ImageJpeg => "image/jpeg"@,
        MediaTypeView::ImagePng => "image/png"@,
        MediaTypeView::ImageGif => "image/gif"@,
        MediaTypeView::MediaOverlay => "application/smil+xml"@,
        MediaTypeView::LegacyNcx => "application/x-dtbncx+xml"@,
        MediaTypeView::Xhtml => "application/xhtml+xml"@,
        MediaTypeView::Js => "text/javascript"@,
        MediaTypeView::Css => "text/css"@,
    }
}

/// Whether `s` is one of the older names of a known type: it reads as that
/// type, but the type is written with another name.
pub open spec fn is_alias(s: Seq<char>) -> bool {
    s == "application/vnd.ms-opentype"@
        || s == "application/font-woff"@
        || s == "audio/ogg"@
        || s == "application/javascript"@
        || s == "application/ecmascript"@
}

/// Whether the media type value is one that a name reads as: an `Other`
/// never holds the name of a known type.
pub open spec fn is_canonical(m: MediaTypeView) -> bool {
    m matches MediaTypeView::Other(name) ==> known_media_type(name) is None
}

/// The known type that `s` names, if any.
fn known_type(s: &str) -> (res: Option<MediaType>)
    ensures
        match res {
            Some(m) => known_media_type(s@) == Some(m@),
            None => known_media_type(s@) is None,
        },
{
    if str_is(s, "font/otf") || str_is(s, "application/vnd.ms-opentype") {
        Some(MediaType::FontOtf)
    } else if str_is(s, "font/ttf") {
        Some(MediaType::FontTtf)
    } else if str_is(s, "font/woff2") {
        Some(MediaType::FontWoff2)
    } else if str_is(s, "font/woff") || str_is(s, "application/font-woff") {
        Some(MediaType::FontWoff)
    } else if str_is(s, "application/font-sfnt") {
        Some(MediaType::FontSfnt)
    } else if str_is(s, "audio/ogg; codecs=opus") || str_is(s, "audio/ogg") {
        Some(MediaType::AudioOgg)
    } else if str_is(s, "audio/mp4") {
        Some(MediaType::AudioMp4)
    } else if str_is(s, "audio/mpeg") {
        Some(MediaType::AudioMpeg)
    } else if str_is(s, "image/svg+xml") {
        Some(MediaType::ImageSvg)
    } else if str_is(s, "image/webp") {
        Some(MediaType::ImageWebp)
    } else if str_is(s, "image/jpeg") {
        Some(MediaType::ImageJpeg)
    } else if str_is(s, "image/png") {
        Some(MediaType::ImagePng)
    } else if str_is(s, "image/gif") {
        Some(MediaType::ImageGif)
    } else if str_is(s, "application/x-dtbncx+xml") {
        Some(MediaType::LegacyNcx)
    } else if str_is(s, "application/smil+xml") {
        Some(MediaType::MediaOverlay)
    } else if str_is(s, "text/css") {
        Some(MediaType::Css)
    } else if str_is(s, "text/javascript") || str_is(s, "application/javascript") || str_is(s, "application/ecmascript") {
        Some(MediaType::Js)
    } else if str_is(s, "application/xhtml+xml") {
        Some(MediaType::Xhtml)
    } else {
        None
    }
}

impl MediaType {
    /// The media type that the name `s` stands for.
    pub fn from_name(s: &str) -> (res: MediaType)
        ensures
            res@ == spec_media_type(s@),
    {
        match known_type(s) {
            Some(m) => m,
            None => MediaType::Other(s.to_owned()),
        }
    }

    /// The name that this media type is written with.
    pub fn to_string(&self) -> (res: String)
        ensures
            res@ == spec_media_type_str(self@),
    {
        let name: &str = match self {
            MediaType::Other(name) => name.as_str(),
            MediaType::Css => "text/css",
            MediaType::Js => "text/javascript",
            MediaType::Xhtml => "application/xhtml+xml",
            MediaType::LegacyNcx => "application/x-dtbncx+xml",
            MediaType::MediaOverlay => "application/smil+xml",
            MediaType::ImageGif => "image/gif",
            MediaType::ImagePng => "image/png",
            MediaType::ImageJpeg => "image/jpeg",
            MediaType::ImageWebp => "image/webp",
            MediaType::ImageSvg => "image/svg+xml",
            MediaType::AudioMp4 => "audio/mp4",
            MediaType::AudioMpeg => "audio/mpeg",
            MediaType::AudioOgg => "audio/ogg; codecs=opus",
            MediaType::FontWoff => "font/woff",
            MediaType::FontWoff2 => "font/woff2",
            MediaType::FontSfnt => "application/font-sfnt",
            MediaType::FontTtf => "font/ttf",
            MediaType::FontOtf => "font/otf",
        };
        name.to_owned()
    }
}

impl std::str::FromStr for MediaType {
    type Err = std::convert::Infallible;

    /// Reads the media type that `s` names; it never fails.
    fn from_str(s: &str) -> (res: Result<MediaType, std::convert::Infallible>)
        ensures
            match res {
                Ok(m) => m@ == spec_media_type(s@),
                Err(_) => false,
            },
    {
        Ok(MediaType::from_name(s))
    }
}

/// Each name of a media type has a length and, at a position that
/// depends on the length, a character that no other name of the same
/// length has there: together they tell the names apart.
proof fn lemma_name_signatures()
    ensures
        "font/otf"@.len() == 8 && "font/otf"@[5] == 'o',
        "application/vnd.ms-opentype"@.len() == 27 && "application/vnd.ms-opentype"@[0] == 'a',
        "font/ttf"@.len() == 8 && "font/ttf"@[5] == 't',
        "font/woff2"@.len() == 10 && "font/woff2"@[6] == 'o',
        "font/woff"@.len() == 9 && "font/woff"@[7] == 'f',
        "application/font-woff"@.len() == 21 && "application/font-woff"@[17] == 'w',
        "application/font-sfnt"@.len() == 21 && "application/font-sfnt"@[17] == 's',
        "audio/ogg; codecs=opus"@.len() == 22 && "audio/ogg; codecs=opus"@[12] == 'o',
        "audio/ogg"@.len() == 9 && "audio/ogg"@[7] == 'g',
        "audio/mp4"@.len() == 9 && "audio/mp4"@[7] == 'p',
        "audio/mpeg"@.len() == 10 && "audio/mpeg"@[6] == 'm',
        "image/svg+xml"@.len() == 13 && "image/svg+xml"@[0] == 'i',
        "image/webp"@.len() == 10 && "image/webp"@[6] == 'w',
        "image/jpeg"@.len() == 10 && "image/jpeg"@[6] == 'j',
        "image/png"@.len() == 9 && "image/png"@[7] == 'n',
        "image/gif"@.len() == 9 && "image/gif"@[7] == 'i',
        "application/x-dtbncx+xml"@.len() == 24 && "application/x-dtbncx+xml"@[0] == 'a',
        "application/smil+xml"@.len() == 20 && "application/smil+xml"@[0] == 'a',
        "text/css"@.len() == 8 && "text/css"@[5] == 'c',
        "text/javascript"@.len() == 15 && "text/javascript"@[0] == 't',
        "application/javascript"@.len() == 22 && "application/javascript"@[12] == 'j',
        "application/ecmascript"@.len() == 22 && "application/ecmascript"@[12] == 'e',
        "application/xhtml+xml"@.len() == 21 && "application/xhtml+xml"@[17] == '+',
{
    reveal_strlit("font/otf");
    assert("font/otf"@[5] == 'o');
    reveal_strlit("application/vnd.ms-opentype");
    assert("application/vnd.ms-opentype"@[0] == 'a');
    reveal_strlit("font/ttf");
    assert("font/ttf"@[5] == 't');
    reveal_strlit("font/woff2");
    assert("font/woff2"@[6] == 'o');
    reveal_strlit("font/woff");
    assert("font/woff"@[7] == 'f');
    reveal_strlit("application/font-woff");
    assert("application/font-woff"@[17] == 'w');
    reveal_strlit("application/font-sfnt");
    assert("application/font-sfnt"@[17] == 's');
    reveal_strlit("audio/ogg; codecs=opus");
    assert("audio/ogg; codecs=opus"@[12] == 'o');
    reveal_strlit("audio/ogg");
    assert("audio/ogg"@[7] == 'g');
    reveal_strlit("audio/mp4");
    assert("audio/mp4"@[7] == 'p');
    reveal_strlit("audio/mpeg");
    assert("audio/mpeg"@[6] == 'm');
    reveal_strlit("image/svg+xml");
    assert("image/svg+xml"@[0] == 'i');
    reveal_strlit("image/webp");
    assert("image/webp"@[6] == 'w');
    reveal_strlit("image/jpeg");
    assert("image/jpeg"@[6] == 'j');
    reveal_strlit("image/png");
    assert("image/png"@[7] == 'n');
    reveal_strlit("image/gif");
    assert("image/gif"@[7] == 'i');
    reveal_strlit("application/x-dtbncx+xml");
    assert("application/x-dtbncx+xml"@[0] == 'a');
    reveal_strlit("application/smil+xml");
    assert("application/smil+xml"@[0] == 'a');
    reveal_strlit("text/css");
    assert("text/css"@[5] == 'c');
    reveal_strlit("text/javascript");
    assert("text/javascript"@[0] == 't');
    reveal_strlit("application/javascript");
    assert("application/javascript"@[12] == 'j');
    reveal_strlit("application/ecmascript");
    assert("application/ecmascript"@[12] == 'e');
    reveal_strlit("application/xhtml+xml");
    assert("application/xhtml+xml"@[17] == '+');
}

/// Reading the name of a media type gives that media type back, for
/// every media type that a name can read as.
pub proof fn lemma_parse_of_str(m: MediaTypeView)
    requires
        is_canonical(m),
    ensures
        spec_media_type(spec_media_type_str(m)) == m,
{
    lemma_name_signatures();
}

/// Writing the media type that a name reads as gives that name back,
/// unless the name is an older alias of a known type; and what a name
/// reads as is always canonical.
pub proof fn lemma_str_of_parse(s: Seq<char>)
    ensures
        spec_media_type_str(spec_media_type(s)) == s <==> !is_alias(s),
        is_canonical(spec_media_type(s)),
{
    lemma_name_signatures();
}

} // verus!
