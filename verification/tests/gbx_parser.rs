use mx_replay_uploader::gbx_parser::replay_parser::GbxReplayHeader;
use mx_replay_uploader::gbx_parser::{find_window, parse_from_bytes, ParseError};

const REPLAY_XML: &str = r#"<header type="replay" exever="3.3.0" exebuild="2019-11-19_18_50" title="TMCanyon"><map uid="46jinRt4pKMhhaspKAwc7F2_Ek" name="$i$sSCL - $fd3Spaghetti Junction" author="helico" authorzone="World|Europe|United Kingdom|England|South West England"/><desc envir="Canyon" mood="Day" maptype="Race" mapstyle="" displaycost="6671" mod="SCL2023Official" /><playermodel id="CanyonCar"/><times best="57648" respawns="0" stuntscore="7" validable="1"/><checkpoints cur="12" onelap="12"/></header>"#;

fn gbx_file(xml: &str) -> Vec<u8> {
    let mut buffer = b"GBX".to_vec();
    buffer.extend_from_slice(&[6, 0, 66, 85, 67, 82, 0, 48, 9, 3]);
    buffer.extend_from_slice(b"junk before ");
    buffer.extend_from_slice(xml.as_bytes());
    buffer.extend_from_slice(b" trailing map data");
    buffer
}

fn header_with(name: &str, best: &str) -> String {
    format!(
        r#"<header type="replay"><map uid="U1" name="{name}" author="someone"/><times best="{best}" respawns="0" stuntscore="0" validable="0"/></header>"#
    )
}

#[test]
fn successfull_parse() {
    let xml = br#"<header type="replay" exever="3.3.0" exebuild="2019-11-19_18_50" title="TMCanyon"><map uid="46jinRt4pKMhhaspKAwc7F2_Ek" name="$i$sSCL - $fd3Spaghetti Junction" author="helico" authorzone="World|Europe|United Kingdom|England|South West England"/><desc envir="Canyon" mood="Day" maptype="Race" mapstyle="" displaycost="6671" mod="SCL2023Official" /><playermodel id="CanyonCar"/><times best="57648" respawns="0" stuntscore="7" validable="1"/><checkpoints cur="12" onelap="12"/></header>"#;

    let hdr: GbxReplayHeader = GbxReplayHeader::parse_replay_xml(xml).unwrap();
    println!("{:#?}", hdr);
}

#[test]
fn replay_xml_fields() {
    let hdr = GbxReplayHeader::parse_replay_xml(REPLAY_XML.as_bytes()).unwrap();
    assert_eq!(hdr.uid(), "46jinRt4pKMhhaspKAwc7F2_Ek");
    assert_eq!(hdr.author(), "helico");
    assert_eq!(hdr.clean_name(), "SCL - Spaghetti Junction");
    assert_eq!(hdr.time(), "57.648");
}

#[test]
fn replay_xml_needs_replay_type() {
    let xml = r#"<header type="map"><map uid="U" name="N" author="A"/></header>"#;
    assert!(matches!(
        GbxReplayHeader::parse_replay_xml(xml.as_bytes()),
        Err(ParseError::HeaderNotFound)
    ));
}

#[test]
fn replay_xml_bad_number() {
    let xml = header_with("N", "12x");
    assert!(matches!(
        GbxReplayHeader::parse_replay_xml(xml.as_bytes()),
        Err(ParseError::HeaderValue(_))
    ));
}

#[test]
fn replay_xml_accepts_plus_sign() {
    let xml = header_with("N", "+61001");
    let hdr = GbxReplayHeader::parse_replay_xml(xml.as_bytes()).unwrap();
    assert_eq!(hdr.time(), "1'01.001");
}

#[test]
fn replay_xml_broken_document() {
    let xml = r#"<header type="replay"><map uid="U" name="N" author="A"></header>"#;
    assert!(matches!(
        GbxReplayHeader::parse_replay_xml(xml.as_bytes()),
        Err(ParseError::XMLParse(_))
    ));
}

#[test]
fn time_formats() {
    let cases = [
        ("0", "0.000"),
        ("7", "0.007"),
        ("59999", "59.999"),
        ("60000", "1'00.000"),
        ("61001", "1'01.001"),
        ("754321", "12'34.321"),
        ("4294967295", "71582'47.295"),
    ];
    for (best, expected) in cases {
        let hdr = GbxReplayHeader::parse_replay_xml(header_with("N", best).as_bytes()).unwrap();
        assert_eq!(hdr.time(), expected, "best = {best}");
    }
}

#[test]
fn clean_name_strips_codes() {
    let cases = [
        ("  plain  ", "plain"),
        ("$o$wBold", "Bold"),
        ("$f00Red$zText", "RedText"),
        ("$$x", "x"),
        ("end$", "end"),
        ("a$F", "a"),
        ("a$1b", "a"),
        ("$gGreen $FFFWhite", "Green White"),
    ];
    for (raw, expected) in cases {
        let hdr = GbxReplayHeader::parse_replay_xml(header_with(raw, "1").as_bytes()).unwrap();
        assert_eq!(hdr.clean_name(), expected, "name = {raw}");
        assert!(!hdr.clean_name().contains('$'));
    }
}

#[test]
fn find_window_first_match() {
    assert_eq!(find_window(b"abcabc", b"ca"), Some(2));
    assert_eq!(find_window(b"abcabc", b"abc"), Some(0));
    assert_eq!(find_window(b"abcabc", b"cb"), None);
    assert_eq!(find_window(b"ab", b"abc"), None);
    assert_eq!(find_window(b"", b"a"), None);
}

#[test]
fn parse_from_bytes_reads_summary() {
    let buffer = gbx_file(REPLAY_XML);
    let hdr = parse_from_bytes(String::from("C:/Replays/a.Gbx"), &buffer).unwrap();
    assert_eq!(hdr.path, "C:/Replays/a.Gbx");
    assert_eq!(hdr.uid(), "46jinRt4pKMhhaspKAwc7F2_Ek");
    assert_eq!(hdr.name(), "SCL - Spaghetti Junction");
    assert_eq!(hdr.author(), "helico");
    assert_eq!(hdr.time(), "57.648");
}

#[test]
fn parse_from_bytes_errors() {
    assert!(matches!(parse_from_bytes(String::new(), b""), Err(ParseError::FileTooShort)));
    assert!(matches!(parse_from_bytes(String::new(), b"GB"), Err(ParseError::FileTooShort)));
    assert!(matches!(
        parse_from_bytes(String::new(), b"GBY0123456789"),
        Err(ParseError::MissingGBXMagic)
    ));
    assert!(matches!(
        parse_from_bytes(String::new(), b"GBX0123456789 no header here"),
        Err(ParseError::HeaderNotFound)
    ));
    assert!(matches!(
        parse_from_bytes(String::new(), b"GBX0123456789<header type=\"replay\"> never closed"),
        Err(ParseError::HeaderNotFound)
    ));
    let buffer = gbx_file(&header_with("N", "-1"));
    assert!(matches!(parse_from_bytes(String::new(), &buffer), Err(ParseError::HeaderValue(_))));
}

#[test]
fn header_token_inside_binary_prefix_is_skipped() {
    // The `<header ` search starts after the 13-byte binary prefix.
    let mut buffer = b"GBX<header x".to_vec();
    buffer.push(0);
    buffer.extend_from_slice(header_with("Late", "1000").as_bytes());
    let hdr = parse_from_bytes(String::from("p"), &buffer).unwrap();
    assert_eq!(hdr.name(), "Late");
    assert_eq!(hdr.time(), "1.000");
}

#[test]
fn parse_error_messages() {
    assert_eq!(ParseError::MissingGBXMagic.message(), "Missing GBX Magic");
    assert_eq!(ParseError::FileTooShort.message(), "File is too short");
    assert_eq!(ParseError::HeaderNotFound.message(), "Header not found");
    let e = GbxReplayHeader::parse_replay_xml(header_with("N", "x").as_bytes()).unwrap_err();
    assert!(e.message().starts_with("Header value error: "));
}

#[test]
fn trailing_bytes_are_not_read() {
    let buffer = gbx_file(REPLAY_XML);
    let mut longer = buffer.clone();
    longer.extend_from_slice(b"<header type=\"replay\"><map uid=\"other\"/></header> \xff\x00");
    let a = parse_from_bytes(String::from("p"), &buffer).unwrap();
    let b = parse_from_bytes(String::from("p"), &longer).unwrap();
    assert_eq!(a.uid(), b.uid());
    assert_eq!(a.name(), b.name());
    assert_eq!(a.time(), b.time());
}

#[test]
fn unknown_tags_and_attributes_are_ignored() {
    let plain = r#"<header type="replay"><map uid="U" name="N" author="A"/><times best="1500"/></header>"#;
    let extra = r#"<header type="replay" colour="red"><playermodel id="CanyonCar"/><map uid="U" name="N" zone="x" author="A"/><times best="1500" laps="3"/></header>"#;
    let a = GbxReplayHeader::parse_replay_xml(plain.as_bytes()).unwrap();
    let b = GbxReplayHeader::parse_replay_xml(extra.as_bytes()).unwrap();
    assert_eq!(a.uid(), b.uid());
    assert_eq!(a.author(), b.author());
    assert_eq!(a.clean_name(), b.clean_name());
    assert_eq!(a.time(), b.time());
}
