//! The text protocol: reply framing, command formatting and reply decoding.
use crate::ed2k::Ed2kHash;
use crate::errors::AnidbError;
use crate::text::push_char;
use vstd::prelude::*;
use vstd::slice::slice_subrange;
use vstd::string::*;
use vstd::utf8::*;

verus! {

/// One reply of the server: a status code and the text after it.
#[derive(Debug)]
pub struct ServerReply {
    pub code: i32,
    pub data: String,
}

pub open spec fn is_digit(c: char) -> bool {
    '0' <= c && c <= '9'
}

pub open spec fn all_digits(s: Seq<char>) -> bool {
    s.len() > 0 && forall|i: int| 0 <= i < s.len() ==> is_digit(#[trigger] s[i])
}

/// The value of a run of decimal digits.
pub open spec fn digits_value(s: Seq<char>) -> int
    decreases s.len(),
{
    if s.len() == 0 {
        0
    } else {
        digits_value(s.drop_last()) * 10 + (s.last() as int - 48)
    }
}

/// The integer that text spells as an optional `+` followed by decimal digits.
pub open spec fn unsigned_text_value(s: Seq<char>) -> Option<int> {
    if s.len() > 0 && s[0] == '+' && all_digits(s.drop_first()) {
        Some(digits_value(s.drop_first()))
    } else if all_digits(s) {
        Some(digits_value(s))
    } else {
        None
    }
}

/// What `String::from_utf8_lossy` makes of some bytes.
pub uninterp spec fn lossy_text(b: Seq<u8>) -> Seq<char>;

/// Relies on `std::str::from_utf8`: it succeeds exactly on valid UTF-8, with
/// the decoded text.
#[verifier::external_body]
fn utf8_text(b: &[u8]) -> (r: Result<String, std::str::Utf8Error>)
    ensures
        r is Ok <==> valid_utf8(b@),
        r matches Ok(s) ==> s@ == decode_utf8(b@),
{
    std::str::from_utf8(b).map(|s| s.to_owned())
}

/// Relies on `String::from_utf8_lossy`: the result depends on the bytes
/// alone, and valid UTF-8 is decoded unchanged.
#[verifier::external_body]
fn lossy(b: &[u8]) -> (r: String)
    ensures
        r@ == lossy_text(b@),
        valid_utf8(b@) ==> r@ == decode_utf8(b@),
{
    String::from_utf8_lossy(b).into_owned()
}

/// Relies on `str::parse::<u32>`: an optional `+` and decimal digits whose
/// value fits, and nothing else, is accepted.
#[verifier::external_body]
fn parse_u32(s: &str) -> (r: Result<u32, std::num::ParseIntError>)
    ensures
        r is Ok <==> (unsigned_text_value(s@) is Some && unsigned_text_value(s@)->0
            <= u32::MAX),
        r matches Ok(v) ==> v == unsigned_text_value(s@)->0,
{
    s.parse::<u32>()
}

pub open spec fn is_digit_byte(b: u8) -> bool {
    48 <= b <= 57
}

/// The status code of a datagram: its first three bytes, when all are ASCII
/// decimal digits.
pub open spec fn reply_code(b: Seq<u8>) -> Option<i32> {
    if b.len() >= 3 && is_digit_byte(b[0]) && is_digit_byte(b[1]) && is_digit_byte(b[2]) {
        Some(((b[0] - 48) * 100 + (b[1] - 48) * 10 + (b[2] - 48)) as i32)
    } else {
        None
    }
}

/// Decimal digits only, whose value fits in a `u32`.
pub open spec fn u32_field(f: Seq<char>) -> Option<u32> {
    if all_digits(f) && digits_value(f) <= u32::MAX {
        Some(digits_value(f) as u32)
    } else {
        None
    }
}

/// Parses text that must be decimal digits only, with std's parser and its
/// error. That parser also takes one leading `+`; putting one in front
/// leaves no room for a sign of the text's own.
pub fn parse_decimal_u32(s: &str) -> (r: Result<u32, std::num::ParseIntError>)
    ensures
        r is Ok <==> u32_field(s@) is Some,
        r matches Ok(v) ==> v == u32_field(s@)->0,
{
    let mut t = String::from_str("+");
    t.append(s);
    proof {
        reveal_strlit("+");
        let ts = seq!['+'] + s@;
        assert(t@ =~= ts);
        assert(ts.drop_first() =~= s@);
        assert(!is_digit(ts[0]));
    }
    parse_u32(t.as_str())
}

proof fn lemma_digit_text_bytes(head: Seq<u8>)
    requires
        head.len() == 3,
        valid_utf8(head),
        all_digits(decode_utf8(head)),
    ensures
        is_digit_byte(head[0]) && is_digit_byte(head[1]) && is_digit_byte(head[2]),
{
    let t = decode_utf8(head);
    assert(is_ascii_chars(t));
    decode_utf8_encode_utf8(head);
    is_ascii_chars_encode_utf8(t);
    assert(t.len() == 3);
    assert(head[0] == t[0] as u8 && head[1] == t[1] as u8 && head[2] == t[2] as u8);
    assert(is_digit(t[0]) && is_digit(t[1]) && is_digit(t[2]));
}

/// Splits the first `len` bytes of a datagram into status code and text.
/// The fourth byte separates the two and is not looked at.
pub fn parse_reply(reply: &[u8], len: usize) -> (r: Result<ServerReply, AnidbError>)
    requires
        len <= reply@.len(),
    ensures
        len < 5 ==> r == Err::<ServerReply, AnidbError>(
            AnidbError::StaticError("Reply less than 5 chars"),
        ),
        len >= 5 && reply_code(reply@) is None && !valid_utf8(reply@.take(3)) ==> r matches Err(
            AnidbError::Utf8Error(_),
        ),
        len >= 5 && reply_code(reply@) is None && valid_utf8(reply@.take(3)) ==> r matches Err(
            AnidbError::ParseIntError(_),
        ),
        len >= 5 && reply_code(reply@) is Some ==> (r matches Ok(rep) && rep.code == reply_code(
            reply@,
        )->0 && rep.data@ == lossy_text(reply@.subrange(4, len as int)) && (valid_utf8(
            reply@.subrange(4, len as int),
        ) ==> rep.data@ == decode_utf8(reply@.subrange(4, len as int)))),
{
    if len < 5 {
        return Err(AnidbError::StaticError("Reply less than 5 chars"));
    }
    let (b0, b1, b2) = (reply[0], reply[1], reply[2]);
    if 48 <= b0 && b0 <= 57 && 48 <= b1 && b1 <= 57 && 48 <= b2 && b2 <= 57 {
        let code = ((b0 - 48) as i32) * 100 + ((b1 - 48) as i32) * 10 + ((b2 - 48) as i32);
        let data = lossy(slice_subrange(reply, 4, len));
        return Ok(ServerReply { code, data });
    }
    let head = slice_subrange(reply, 0, 3);
    assert(head@ =~= reply@.take(3));
    let code_str = match utf8_text(head) {
        Ok(s) => s,
        Err(e) => {
            return Err(AnidbError::Utf8Error(e));
        },
    };
    match parse_decimal_u32(code_str.as_str()) {
        Err(e) => Err(AnidbError::ParseIntError(e)),
        Ok(_) => {
            proof {
                lemma_digit_text_bytes(head@);
            }
            Err(AnidbError::StaticError("Reply code is not three digits"))
        },
    }
}

pub open spec fn digit_char(d: int) -> char {
    (48 + d) as char
}

/// A status code as three digits, with leading zeros.
pub open spec fn code_text(code: int) -> Seq<char> {
    seq![digit_char(code / 100), digit_char((code / 10) % 10), digit_char(code % 10)]
}

/// The datagram the server sends for a code and a text.
pub open spec fn reply_bytes(code: int, data: Seq<char>) -> Seq<u8> {
    encode_utf8(code_text(code) + seq![' '] + data)
}

/// Frames a reply as the server does: three digits, a space, the text.
pub fn format_reply(code: i32, data: &str) -> (r: Vec<u8>)
    requires
        0 <= code <= 999,
    ensures
        r@ == reply_bytes(code as int, data@),
{
    let mut s = String::new();
    push_char(&mut s, ((48 + code / 100) as u8) as char);
    push_char(&mut s, ((48 + (code / 10) % 10) as u8) as char);
    push_char(&mut s, ((48 + code % 10) as u8) as char);
    push_char(&mut s, ' ');
    s.append(data);
    assert(s@ =~= code_text(code as int) + seq![' '] + data@);
    s.as_str().as_bytes_vec()
}

proof fn lemma_encode_concat(a: Seq<char>, b: Seq<char>)
    ensures
        encode_utf8(a + b) == encode_utf8(a) + encode_utf8(b),
    decreases a.len(),
{
    if a.len() == 0 {
        assert(a + b =~= b);
        assert(encode_utf8(a) + encode_utf8(b) =~= encode_utf8(b));
    } else {
        assert((a + b).drop_first() =~= a.drop_first() + b);
        lemma_encode_concat(a.drop_first(), b);
        assert(encode_utf8(a + b) =~= encode_utf8(a) + encode_utf8(b));
    }
}

proof fn lemma_three_digits(code: int)
    requires
        0 <= code <= 999,
    ensures
        all_digits(code_text(code)),
        digits_value(code_text(code)) == code,
        is_ascii_chars(code_text(code)),
{
    let t = code_text(code);
    let d0 = code / 100;
    let d1 = (code / 10) % 10;
    let d2 = code % 10;
    assert(0 <= d0 <= 9 && 0 <= d1 <= 9 && 0 <= d2 <= 9);
    assert(d0 * 100 + d1 * 10 + d2 == code);
    assert(digit_char(d0) as int - 48 == d0);
    assert(digit_char(d1) as int - 48 == d1);
    assert(digit_char(d2) as int - 48 == d2);
    assert(t.drop_last() =~= seq![digit_char(d0), digit_char(d1)]);
    assert(t.drop_last().drop_last() =~= seq![digit_char(d0)]);
    assert(t.drop_last().drop_last().drop_last() =~= Seq::<char>::empty());
    assert(seq![digit_char(d0)].drop_last() =~= Seq::<char>::empty());
    assert(seq![digit_char(d0), digit_char(d1)].drop_last() =~= seq![digit_char(d0)]);
    assert(digits_value(Seq::<char>::empty()) == 0);
    assert(digits_value(seq![digit_char(d0)]) == d0);
    assert(digits_value(seq![digit_char(d0), digit_char(d1)]) == d0 * 10 + d1);
}

/// A reply framed by `format_reply` parses back to the same code and text
/// (the text must be non-empty, since a datagram needs five bytes).
pub proof fn lemma_reply_round_trip(code: int, data: Seq<char>)
    requires
        0 <= code <= 999,
        data.len() > 0,
    ensures
        reply_bytes(code, data).len() >= 5,
        reply_code(reply_bytes(code, data)) == Some(code as i32),
        valid_utf8(reply_bytes(code, data).skip(4)),
        decode_utf8(reply_bytes(code, data).skip(4)) == data,
{
    let ct = code_text(code);
    lemma_three_digits(code);
    let head = ct + seq![' '];
    assert(is_ascii_chars(head));
    lemma_encode_concat(head, data);
    lemma_encode_concat(ct, seq![' ']);
    is_ascii_chars_encode_utf8(head);
    is_ascii_chars_encode_utf8(ct);
    let b = reply_bytes(code, data);
    assert(code_text(code) + seq![' '] + data == head + data);
    assert(encode_utf8(head).len() == 4);
    encode_utf8_valid_utf8(data);
    encode_utf8_decode_utf8(data);
    encode_utf8_valid_utf8(ct);
    encode_utf8_decode_utf8(ct);
    assert(b.skip(4) =~= encode_utf8(data));
    assert(b.take(3) =~= encode_utf8(ct));
    assert(encode_utf8(data).len() > 0) by {
        assert(encode_utf8(data) =~= encode_scalar(data[0] as u32) + encode_utf8(data.drop_first()));
    }
    let d0 = code / 100;
    let d1 = (code / 10) % 10;
    let d2 = code % 10;
    assert(b[0] == ct[0] as u8 && b[1] == ct[1] as u8 && b[2] == ct[2] as u8);
    assert(ct[0] as u8 == 48 + d0 && ct[1] as u8 == 48 + d1 && ct[2] as u8 == 48 + d2);
    assert(d0 * 100 + d1 * 10 + d2 == code);
}

/// Splits text at every occurrence of `sep`: `n` separators give `n + 1` parts.
pub open spec fn split_on(s: Seq<char>, sep: char) -> Seq<Seq<char>>
    decreases s.len(),
{
    if s.len() == 0 {
        seq![Seq::<char>::empty()]
    } else {
        let init = split_on(s.drop_last(), sep);
        if s.last() == sep {
            init.push(Seq::<char>::empty())
        } else {
            init.update(init.len() - 1, init.last().push(s.last()))
        }
    }
}

proof fn lemma_split_nonempty(s: Seq<char>, sep: char)
    ensures
        split_on(s, sep).len() >= 1,
    decreases s.len(),
{
    if s.len() > 0 {
        lemma_split_nonempty(s.drop_last(), sep);
    }
}

/// The parts of `s` between occurrences of `sep`.
pub fn split_text(s: &str, sep: char) -> (r: Vec<String>)
    ensures
        r@.len() == split_on(s@, sep).len(),
        forall|i: int| 0 <= i < r@.len() ==> #[trigger] r@[i]@ == split_on(s@, sep)[i],
{
    let n = s.unicode_len();
    let mut parts: Vec<String> = Vec::new();
    let mut cur = String::new();
    let mut i: usize = 0;
    while i < n
        invariant
            n == s@.len(),
            i <= n,
            parts@.len() + 1 == split_on(s@.take(i as int), sep).len(),
            forall|k: int| 0 <= k < parts@.len() ==> #[trigger] parts@[k]@ == split_on(
                s@.take(i as int),
                sep,
            )[k],
            cur@ == split_on(s@.take(i as int), sep).last(),
        decreases n - i,
    {
        let c = s.get_char(i);
        proof {
            lemma_split_nonempty(s@.take(i as int), sep);
            assert(s@.take(i + 1).drop_last() =~= s@.take(i as int));
        }
        if c == sep {
            parts.push(cur);
            cur = String::new();
        } else {
            push_char(&mut cur, c);
        }
        i = i + 1;
    }
    parts.push(cur);
    assert(s@.take(n as int) =~= s@);
    parts
}

/// What an `AUTH` reply must look like: code 200 and the text
/// `<token> LOGIN ACCEPTED\n`; the token is the first part.
pub open spec fn auth_token(code: i32, data: Seq<char>) -> Option<Seq<char>> {
    let parts = split_on(data, ' ');
    if code == 200 && parts.len() == 3 && parts[1] == "LOGIN"@ && parts[2] == "ACCEPTED\n"@ {
        Some(parts[0])
    } else {
        None
    }
}

/// Checks the reply to `AUTH` and returns the session token.
pub fn validate_auth_command(reply: &ServerReply) -> (r: Result<String, AnidbError>)
    ensures
        reply.code != 200 ==> (r matches Err(AnidbError::ErrorCode(c, d)) && c == reply.code
            && d@ == reply.data@),
        reply.code == 200 && auth_token(reply.code, reply.data@) is None ==> r matches Err(
            AnidbError::Error(_),
        ),
        auth_token(reply.code, reply.data@) matches Some(t) ==> (r matches Ok(s) && s@ == t),
{
    if reply.code != 200 {
        return Err(AnidbError::ErrorCode(reply.code, reply.data.clone()));
    }
    let v = split_text(reply.data.as_str(), ' ');
    if v.len() != 3 {
        let mut msg = String::from_str("Invalid AUTH reply: ");
        msg.append(reply.data.as_str());
        msg.append(" expected 3 args");
        return Err(AnidbError::Error(msg));
    }
    let login = String::from_str("LOGIN");
    let accepted = String::from_str("ACCEPTED\n");
    proof {
        reveal_strlit("LOGIN");
        reveal_strlit("ACCEPTED\n");
    }
    if v[1] != login || v[2] != accepted {
        let mut msg = String::from_str("Invalid AUTH reply: ");
        msg.append(reply.data.as_str());
        msg.append(" LOGIN ACCEPTED\\n expected");
        return Err(AnidbError::Error(msg));
    }
    Ok(v[0].clone())
}

/// Decimal digits of a natural number, without leading zeros.
pub open spec fn decimal_text(n: nat) -> Seq<char>
    decreases n,
{
    if n < 10 {
        seq![digit_char(n as int)]
    } else {
        decimal_text(n / 10).push(digit_char((n % 10) as int))
    }
}

pub(crate) fn push_decimal(s: &mut String, n: u64)
    ensures
        final(s)@ == old(s)@ + decimal_text(n as nat),
    decreases n,
{
    if n >= 10 {
        push_decimal(s, n / 10);
    }
    push_char(s, ((48 + n % 10) as u8) as char);
    assert(s@ =~= old(s)@ + decimal_text(n as nat));
}

/// Decimal text of an integer, with a `-` when negative.
pub open spec fn signed_decimal_text(n: int) -> Seq<char> {
    if n < 0 {
        seq!['-'] + decimal_text((-n) as nat)
    } else {
        decimal_text(n as nat)
    }
}

pub(crate) fn push_signed_decimal(s: &mut String, n: i32)
    ensures
        final(s)@ == old(s)@ + signed_decimal_text(n as int),
{
    if n < 0 {
        push_char(s, '-');
        push_decimal(s, (-(n as i64)) as u64);
        assert(final(s)@ =~= old(s)@ + signed_decimal_text(n as int));
    } else {
        push_decimal(s, n as u64);
    }
}

/// `AUTH user=<u>&pass=<p>&protover=3&client=anidbrs&clientver=1`
pub open spec fn login_text(username: Seq<char>, password: Seq<char>) -> Seq<char> {
    "AUTH user="@ + username + "&pass="@ + password + "&protover=3&client=anidbrs&clientver=1"@
}

/// `LOGOUT s=<token>`
pub open spec fn logout_text(session_id: Seq<char>) -> Seq<char> {
    "LOGOUT s="@ + session_id
}

/// `FILE size=<size>&ed2k=<hex>&fmask=7000000100&amask=F0B8E0C0`
pub open spec fn file_hash_text(size: nat, hex: Seq<char>) -> Seq<char> {
    "FILE size="@ + decimal_text(size) + "&ed2k="@ + hex + "&fmask=7000000100&amask=F0B8E0C0"@
}

/// An authenticated command: the command with the session token appended.
pub open spec fn with_session_text(message: Seq<char>, session_id: Seq<char>) -> Seq<char> {
    message + "&s="@ + session_id
}

pub fn format_login_string(username: &str, password: &str) -> (r: String)
    ensures
        r@ == login_text(username@, password@),
{
    let mut r = String::from_str("AUTH user=");
    r.append(username);
    r.append("&pass=");
    r.append(password);
    r.append("&protover=3&client=anidbrs&clientver=1");
    r
}

pub fn format_logout_string(session_id: &str) -> (r: String)
    ensures
        r@ == logout_text(session_id@),
{
    let mut r = String::from_str("LOGOUT s=");
    r.append(session_id);
    r
}

pub fn format_file_hash_str(hash: &Ed2kHash) -> (r: String)
    ensures
        r@ == file_hash_text(hash.size as nat, hash.hex@),
{
    let mut r = String::from_str("FILE size=");
    push_decimal(&mut r, hash.size);
    r.append("&ed2k=");
    r.append(hash.hex.as_str());
    r.append("&fmask=7000000100&amask=F0B8E0C0");
    r
}

pub fn format_with_session(message: &str, session_id: &str) -> (r: String)
    ensures
        r@ == with_session_text(message@, session_id@),
{
    let mut r = String::from_str(message);
    r.append("&s=");
    r.append(session_id);
    r
}

/// The metadata of one file, in the order the server sends the fields.
#[derive(Debug)]
pub struct File {
    pub fid: u32,
    pub aid: u32,
    pub eid: u32,
    pub gid: u32,
    /// "Canonical" filename, as the server has it.
    pub filename: String,
    pub total_eps: u32,
    pub highest_ep: u32,
    pub year: String,
    pub typ: String,
    pub series_romaji: String,
    pub series_english: String,
    pub series_other: String,
    pub series_short: String,
    /// The episode number can be non-numeric, e.g. for specials.
    pub ep_number: String,
    pub ep_name: String,
    pub ep_romaji: String,
    pub group_name: String,
    pub group_short: String,
}

/// The pipe-separated fields on the second line of a `FILE` answer, when
/// there are at least the eighteen that are asked for.
pub open spec fn file_fields(data: Seq<char>) -> Option<Seq<Seq<char>>> {
    let lines = split_on(data, '\n');
    if lines.len() >= 2 && split_on(lines[1], '|').len() >= 18 {
        Some(split_on(lines[1], '|'))
    } else {
        None
    }
}

/// The six numeric fields (ids and episode counts) all parse.
pub open spec fn numbers_parse(f: Seq<Seq<char>>) -> bool {
    &&& u32_field(f[0]) is Some
    &&& u32_field(f[1]) is Some
    &&& u32_field(f[2]) is Some
    &&& u32_field(f[3]) is Some
    &&& u32_field(f[5]) is Some
    &&& u32_field(f[6]) is Some
}

/// `file` holds exactly the decoded fields `f`.
pub open spec fn file_matches(file: File, f: Seq<Seq<char>>) -> bool {
    &&& file.fid == u32_field(f[0])->0
    &&& file.aid == u32_field(f[1])->0
    &&& file.eid == u32_field(f[2])->0
    &&& file.gid == u32_field(f[3])->0
    &&& file.filename@ == f[4]
    &&& file.total_eps == u32_field(f[5])->0
    &&& file.highest_ep == u32_field(f[6])->0
    &&& file.year@ == f[7]
    &&& file.typ@ == f[8]
    &&& file.series_romaji@ == f[9]
    &&& file.series_english@ == f[10]
    &&& file.series_other@ == f[11]
    &&& file.series_short@ == f[12]
    &&& file.ep_number@ == f[13]
    &&& file.ep_name@ == f[14]
    &&& file.ep_romaji@ == f[15]
    &&& file.group_name@ == f[16]
    &&& file.group_short@ == f[17]
}

fn number_field(fields: &Vec<String>, k: usize) -> (r: Result<u32, AnidbError>)
    requires
        k < fields@.len(),
    ensures
        u32_field(fields@[k as int]@) matches Some(v) ==> r == Ok::<u32, AnidbError>(v),
        u32_field(fields@[k as int]@) is None ==> r matches Err(AnidbError::ParseIntError(_)),
{
    match parse_decimal_u32(fields[k].as_str()) {
        Ok(v) => Ok(v),
        Err(e) => Err(AnidbError::ParseIntError(e)),
    }
}

/// Decodes the answer to a `FILE` query.
pub fn decode_file(reply: &ServerReply) -> (r: Result<File, AnidbError>)
    ensures
        reply.code == 322 ==> r matches Err(AnidbError::AmbiguousMatch),
        reply.code == 320 ==> r matches Err(AnidbError::NoSuchFile),
        reply.code != 220 && reply.code != 320 && reply.code != 322 ==> (r matches Err(
            AnidbError::ErrorCode(c, d),
        ) && c == reply.code && d@ == reply.data@),
        reply.code == 220 && file_fields(reply.data@) is None ==> r matches Err(
            AnidbError::Error(_),
        ),
        reply.code == 220 && file_fields(reply.data@) is Some && !numbers_parse(
            file_fields(reply.data@)->0,
        ) ==> r matches Err(AnidbError::ParseIntError(_)),
        reply.code == 220 && file_fields(reply.data@) is Some && numbers_parse(
            file_fields(reply.data@)->0,
        ) ==> (r matches Ok(file) && file_matches(file, file_fields(reply.data@)->0)),
{
    if reply.code == 322 {
        return Err(AnidbError::AmbiguousMatch);
    }
    if reply.code == 320 {
        return Err(AnidbError::NoSuchFile);
    }
    if reply.code != 220 {
        return Err(AnidbError::ErrorCode(reply.code, reply.data.clone()));
    }
    let lines = split_text(reply.data.as_str(), '\n');
    if lines.len() < 2 {
        return Err(AnidbError::Error(String::from_str("FILE reply has no data line")));
    }
    let f = split_text(lines[1].as_str(), '|');
    if f.len() < 18 {
        return Err(AnidbError::Error(String::from_str("FILE reply has too few fields")));
    }
    let ghost fs = split_on(split_on(reply.data@, '\n')[1], '|');
    assert(file_fields(reply.data@) == Some(fs));
    let fid = match number_field(&f, 0) {
        Ok(v) => v,
        Err(e) => return Err(e),
    };
    let aid = match number_field(&f, 1) {
        Ok(v) => v,
        Err(e) => return Err(e),
    };
    let eid = match number_field(&f, 2) {
        Ok(v) => v,
        Err(e) => return Err(e),
    };
    let gid = match number_field(&f, 3) {
        Ok(v) => v,
        Err(e) => return Err(e),
    };
    let total_eps = match number_field(&f, 5) {
        Ok(v) => v,
        Err(e) => return Err(e),
    };
    let highest_ep = match number_field(&f, 6) {
        Ok(v) => v,
        Err(e) => return Err(e),
    };
    Ok(File {
        fid,
        aid,
        eid,
        gid,
        filename: f[4].clone(),
        total_eps,
        highest_ep,
        year: f[7].clone(),
        typ: f[8].clone(),
        series_romaji: f[9].clone(),
        series_english: f[10].clone(),
        series_other: f[11].clone(),
        series_short: f[12].clone(),
        ep_number: f[13].clone(),
        ep_name: f[14].clone(),
        ep_romaji: f[15].clone(),
        group_name: f[16].clone(),
        group_short: f[17].clone(),
    })
}

} // verus!
