use anidb::protocol::{
    decode_file, format_file_hash_str, format_login_string, format_logout_string, format_reply,
    format_with_session, parse_reply, split_text, validate_auth_command,
};
use anidb::{AnidbError, Ed2kHash, ServerReply};

fn reply(code: i32, data: &str) -> ServerReply {
    ServerReply { code, data: data.to_string() }
}

#[test]
fn test_parse_reply_ok() {
    let reply = b"500 LOGIN FAILED";
    let ret = parse_reply(reply, reply.len()).unwrap();
    assert_eq!(ret.code, 500);
    assert_eq!(ret.data, "LOGIN FAILED");
}

#[test]
fn test_parse_reply_fail_1() {
    let reply = b"a3i5LOGIN FAILED";
    assert_eq!(true, parse_reply(reply, reply.len()).is_err());
    assert!(matches!(parse_reply(reply, reply.len()), Err(AnidbError::ParseIntError(_))));
}

#[test]
fn test_parse_reply_fail_2() {
    let reply = b"34i5LOGIN FAILED";
    assert_eq!(true, parse_reply(reply, reply.len()).is_err());
    assert!(matches!(parse_reply(reply, reply.len()), Err(AnidbError::ParseIntError(_))));
}

#[test]
fn test_parse_reply_too_short() {
    let reply = b"3D";
    assert_eq!(true, parse_reply(reply, reply.len()).is_err());
    assert!(matches!(
        parse_reply(reply, reply.len()),
        Err(AnidbError::StaticError("Reply less than 5 chars"))
    ));
}

#[test]
fn test_parse_reply_exact_length() {
    let reply = b"777 O";
    let ret = parse_reply(reply, reply.len()).unwrap();
    assert_eq!(ret.code, 777);
    assert_eq!(ret.data, "O");
}

#[test]
fn parse_reply_four_bytes_is_too_short() {
    assert!(matches!(parse_reply(b"200 ", 4), Err(AnidbError::StaticError(_))));
}

#[test]
fn parse_reply_uses_only_len_bytes() {
    let buf = b"201 HELLO WORLD";
    let ret = parse_reply(buf, 9).unwrap();
    assert_eq!(ret.code, 201);
    assert_eq!(ret.data, "HELLO");
}

#[test]
fn parse_reply_non_utf8_code() {
    let buf = [0xffu8, b'0', b'0', b' ', b'x'];
    assert!(matches!(parse_reply(&buf, 5), Err(AnidbError::Utf8Error(_))));
}

#[test]
fn parse_reply_lossy_data() {
    let buf = [b'2', b'0', b'0', b' ', b'a', 0xff, b'b'];
    let ret = parse_reply(&buf, buf.len()).unwrap();
    assert_eq!(ret.code, 200);
    assert_eq!(ret.data, "a\u{fffd}b");
}

#[test]
fn reply_round_trip() {
    let bytes = format_reply(220, "FILE\n1|2|3");
    assert_eq!(bytes, b"220 FILE\n1|2|3".to_vec());
    let ret = parse_reply(&bytes, bytes.len()).unwrap();
    assert_eq!(ret.code, 220);
    assert_eq!(ret.data, "FILE\n1|2|3");
    let bytes = format_reply(7, "é ok");
    let ret = parse_reply(&bytes, bytes.len()).unwrap();
    assert_eq!(ret.code, 7);
    assert_eq!(ret.data, "é ok");
}

#[test]
fn test_format_login_string() {
    let login_string = format_login_string("leeloo_dallas", "multipass");
    assert_eq!(
        login_string,
        "AUTH user=leeloo_dallas&pass=multipass&protover=3&client=anidbrs&clientver=1"
    );
}

#[test]
fn test_format_logout_string() {
    let logout_str = format_logout_string("abcd1234");
    assert_eq!(logout_str, "LOGOUT s=abcd1234");
}

#[test]
fn format_file_query() {
    let hash = Ed2kHash::from_bytes(b"");
    assert_eq!(
        format_file_hash_str(&hash),
        "FILE size=0&ed2k=31d6cfe0d16ae931b73c59d7e0c089c0&fmask=7000000100&amask=F0B8E0C0"
    );
    let hash = Ed2kHash { bin: [0; 16], size: 1234567890, hex: "ab".to_string() };
    assert_eq!(
        format_file_hash_str(&hash),
        "FILE size=1234567890&ed2k=ab&fmask=7000000100&amask=F0B8E0C0"
    );
}

#[test]
fn format_session_suffix() {
    assert_eq!(format_with_session("FILE size=1", "tok"), "FILE size=1&s=tok");
}

#[test]
fn split_keeps_empty_parts() {
    let parts = split_text("a||b|", '|');
    assert_eq!(parts, vec!["a", "", "b", ""]);
    assert_eq!(split_text("", ' '), vec![""]);
}

#[test]
fn validate_auth_accepts_token() {
    let r = validate_auth_command(&reply(200, "tok LOGIN ACCEPTED\n")).unwrap();
    assert_eq!(r, "tok");
}

#[test]
fn validate_auth_rejects_wrong_words() {
    let r = validate_auth_command(&reply(200, "tok LOGIN REJECTED\n"));
    assert!(matches!(r, Err(AnidbError::Error(_))));
    let r = validate_auth_command(&reply(200, "tok LOGIN ACCEPTED"));
    assert!(matches!(r, Err(AnidbError::Error(_))));
}

#[test]
fn validate_auth_rejects_wrong_count() {
    let r = validate_auth_command(&reply(200, "tok LOGIN ACCEPTED\n extra"));
    assert!(matches!(r, Err(AnidbError::Error(_))));
}

#[test]
fn validate_auth_rejects_code() {
    let r = validate_auth_command(&reply(500, "LOGIN FAILED"));
    match r {
        Err(AnidbError::ErrorCode(c, d)) => {
            assert_eq!(c, 500);
            assert_eq!(d, "LOGIN FAILED");
        }
        _ => panic!("expected an error code"),
    }
}

const FILE_REPLY: &str = "FILE\n1879191|12235|183230|10435|Little Witch Academia (2017) - 01 - A New Beginning - [Asenshi](6a9d1e5c).mkv|25|25|2017-2017|TV Series|Little Witch Academia (2017)||Other (2017)|lwatv|01|A New Beginning|Arata na Hajimari|AnimeSenshi Subs|Asenshi";

#[test]
fn decode_file_fields() {
    let f = decode_file(&reply(220, FILE_REPLY)).unwrap();
    assert_eq!(f.fid, 1879191);
    assert_eq!(f.aid, 12235);
    assert_eq!(f.eid, 183230);
    assert_eq!(f.gid, 10435);
    assert_eq!(
        f.filename,
        "Little Witch Academia (2017) - 01 - A New Beginning - [Asenshi](6a9d1e5c).mkv"
    );
    assert_eq!(f.total_eps, 25);
    assert_eq!(f.highest_ep, 25);
    assert_eq!(f.year, "2017-2017");
    assert_eq!(f.typ, "TV Series");
    assert_eq!(f.series_romaji, "Little Witch Academia (2017)");
    assert_eq!(f.series_english, "");
    assert_eq!(f.series_other, "Other (2017)");
    assert_eq!(f.series_short, "lwatv");
    assert_eq!(f.ep_number, "01");
    assert_eq!(f.ep_name, "A New Beginning");
    assert_eq!(f.ep_romaji, "Arata na Hajimari");
    assert_eq!(f.group_name, "AnimeSenshi Subs");
    assert_eq!(f.group_short, "Asenshi");
}

#[test]
fn decode_file_status_codes() {
    assert!(matches!(decode_file(&reply(320, "NO SUCH FILE")), Err(AnidbError::NoSuchFile)));
    assert!(matches!(decode_file(&reply(322, "MULTIPLE")), Err(AnidbError::AmbiguousMatch)));
    match decode_file(&reply(501, "LOGIN FIRST")) {
        Err(AnidbError::ErrorCode(c, d)) => {
            assert_eq!(c, 501);
            assert_eq!(d, "LOGIN FIRST");
        }
        _ => panic!("expected an error carrying the code"),
    }
}

#[test]
fn decode_file_malformed() {
    assert!(matches!(decode_file(&reply(220, "FILE")), Err(AnidbError::Error(_))));
    assert!(matches!(decode_file(&reply(220, "FILE\n1|2|3")), Err(AnidbError::Error(_))));
    let bad = FILE_REPLY.replacen("1879191", "18x", 1);
    assert!(matches!(decode_file(&reply(220, &bad)), Err(AnidbError::ParseIntError(_))));
    let signed = FILE_REPLY.replacen("1879191", "+1879191", 1);
    assert!(matches!(decode_file(&reply(220, &signed)), Err(AnidbError::ParseIntError(_))));
    let huge = FILE_REPLY.replacen("1879191", "4294967296", 1);
    assert!(matches!(decode_file(&reply(220, &huge)), Err(AnidbError::ParseIntError(_))));
}

#[test]
fn parse_reply_rejects_signed_code() {
    assert!(matches!(parse_reply(b"+12 x", 5), Err(AnidbError::ParseIntError(_))));
    assert!(matches!(parse_reply(b"-12 x", 5), Err(AnidbError::ParseIntError(_))));
    assert!(matches!(parse_reply(b" 12 x", 5), Err(AnidbError::ParseIntError(_))));
    let ret = parse_reply(b"007 x", 5).unwrap();
    assert_eq!(ret.code, 7);
}

#[test]
fn error_messages() {
    assert_eq!(AnidbError::NoSuchFile.message(), "No such file");
    assert_eq!(AnidbError::AmbiguousMatch.message(), "Found multiple files");
    assert_eq!(AnidbError::StaticError("Reply less than 5 chars").message(), "Reply less than 5 chars");
    assert_eq!(AnidbError::Error("bad".to_string()).message(), "bad");
    assert_eq!(AnidbError::ErrorCode(500, "LOGIN FAILED".to_string()).message(), "Error 500 - LOGIN FAILED");
    assert_eq!(AnidbError::ErrorCode(-3, "x".to_string()).message(), "Error -3 - x");
    match parse_reply(b"a3i5LOGIN FAILED", 16) {
        Err(e) => assert!(!e.message().is_empty()),
        Ok(_) => panic!("expected an error"),
    }
}
