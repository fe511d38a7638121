use epub_parser::media_type::MediaType;

fn all_known() -> Vec<MediaType> {
    vec![
        MediaType::Xhtml,
        MediaType::Css,
        MediaType::Js,
        MediaType::ImageGif,
        MediaType::ImageJpeg,
        MediaType::ImagePng,
        MediaType::ImageSvg,
        MediaType::ImageWebp,
        MediaType::AudioMpeg,
        MediaType::AudioMp4,
        MediaType::AudioOgg,
        MediaType::FontTtf,
        MediaType::FontOtf,
        MediaType::FontSfnt,
        MediaType::FontWoff,
        MediaType::FontWoff2,
        MediaType::LegacyNcx,
        MediaType::MediaOverlay,
    ]
}

#[test]
fn registered_names_are_read() {
    assert_eq!(MediaType::from_name("application/xhtml+xml"), MediaType::Xhtml);
    assert_eq!(MediaType::from_name("text/css"), MediaType::Css);
    assert_eq!(MediaType::from_name("text/javascript"), MediaType::Js);
    assert_eq!(MediaType::from_name("image/gif"), MediaType::ImageGif);
    assert_eq!(MediaType::from_name("image/jpeg"), MediaType::ImageJpeg);
    assert_eq!(MediaType::from_name("image/png"), MediaType::ImagePng);
    assert_eq!(MediaType::from_name("image/svg+xml"), MediaType::ImageSvg);
    assert_eq!(MediaType::from_name("image/webp"), MediaType::ImageWebp);
    assert_eq!(MediaType::from_name("audio/mpeg"), MediaType::AudioMpeg);
    assert_eq!(MediaType::from_name("audio/mp4"), MediaType::AudioMp4);
    assert_eq!(MediaType::from_name("audio/ogg; codecs=opus"), MediaType::AudioOgg);
    assert_eq!(MediaType::from_name("font/ttf"), MediaType::FontTtf);
    assert_eq!(MediaType::from_name("font/otf"), MediaType::FontOtf);
    assert_eq!(MediaType::from_name("application/font-sfnt"), MediaType::FontSfnt);
    assert_eq!(MediaType::from_name("font/woff"), MediaType::FontWoff);
    assert_eq!(MediaType::from_name("font/woff2"), MediaType::FontWoff2);
    assert_eq!(MediaType::from_name("application/x-dtbncx+xml"), MediaType::LegacyNcx);
    assert_eq!(MediaType::from_name("application/smil+xml"), MediaType::MediaOverlay);
}

#[test]
fn aliases_are_read_as_their_type() {
    assert_eq!(MediaType::from_name("application/javascript"), MediaType::Js);
    assert_eq!(MediaType::from_name("application/ecmascript"), MediaType::Js);
    assert_eq!(MediaType::from_name("audio/ogg"), MediaType::AudioOgg);
    assert_eq!(MediaType::from_name("application/vnd.ms-opentype"), MediaType::FontOtf);
    assert_eq!(MediaType::from_name("application/font-woff"), MediaType::FontWoff);
}

#[test]
fn unknown_names_are_kept() {
    assert_eq!(MediaType::from_name("video/mp4"), MediaType::Other("video/mp4".to_string()));
    assert_eq!(MediaType::from_name(""), MediaType::Other(String::new()));
    assert_eq!(MediaType::from_name("TEXT/CSS"), MediaType::Other("TEXT/CSS".to_string()));
    assert_eq!(MediaType::from_name(" text/css"), MediaType::Other(" text/css".to_string()));
}

#[test]
fn names_written_for_each_type() {
    assert_eq!(MediaType::Js.to_string(), "text/javascript");
    assert_eq!(MediaType::AudioOgg.to_string(), "audio/ogg; codecs=opus");
    assert_eq!(MediaType::FontOtf.to_string(), "font/otf");
    assert_eq!(MediaType::FontWoff.to_string(), "font/woff");
    assert_eq!(MediaType::Xhtml.to_string(), "application/xhtml+xml");
    assert_eq!(MediaType::Other("video/mp4".to_string()).to_string(), "video/mp4");
}

#[test]
fn reading_a_written_name_gives_the_type_back() {
    for m in all_known() {
        assert_eq!(MediaType::from_name(&m.to_string()), m);
    }
    let other = MediaType::Other("application/pdf".to_string());
    assert_eq!(MediaType::from_name(&other.to_string()), other);
}

#[test]
fn other_holding_a_known_name_does_not_come_back() {
    let odd = MediaType::Other("text/css".to_string());
    assert_eq!(MediaType::from_name(&odd.to_string()), MediaType::Css);
}

#[test]
fn writing_a_read_name_gives_it_back_unless_alias() {
    for name in ["text/css", "font/woff2", "image/svg+xml", "application/pdf"] {
        assert_eq!(MediaType::from_name(name).to_string(), name);
    }
    for alias in ["application/javascript", "application/ecmascript", "audio/ogg", "application/vnd.ms-opentype", "application/font-woff"] {
        assert_ne!(MediaType::from_name(alias).to_string(), alias);
    }
}

#[test]
fn from_str_trait_reads_the_same() {
    assert_eq!("image/webp".parse::<MediaType>(), Ok(MediaType::ImageWebp));
    assert_eq!("x/y".parse::<MediaType>(), Ok(MediaType::Other("x/y".to_string())));
}
