//! Where an identified file goes in the library.
use crate::protocol::{decimal_text, parse_decimal_u32, push_decimal, u32_field, File};
use crate::text::push_char;
use vstd::prelude::*;

verus! {

/// Spaces become underscores and slashes become pipes.
pub open spec fn clean_text(s: Seq<char>) -> Seq<char> {
    Seq::new(
        s.len(),
        |i: int|
            if s[i] == ' ' {
                '_'
            } else if s[i] == '/' {
                '|'
            } else {
                s[i]
            },
    )
}

/// A numeric episode number gets leading zeros up to the width of the
/// episode count; any other stays as it is.
pub open spec fn padded_episode(ep: Seq<char>, total_eps: nat) -> Seq<char> {
    let width = decimal_text(total_eps).len();
    if u32_field(ep) is Some && ep.len() < width {
        Seq::new((width - ep.len()) as nat, |i: int| '0') + ep
    } else {
        ep
    }
}

/// `<series> - <episode> <episode name>.<ext>`
pub open spec fn episode_file_name(
    series: Seq<char>,
    ep: Seq<char>,
    total_eps: nat,
    ep_name: Seq<char>,
    ext: Seq<char>,
) -> Seq<char> {
    series + " - "@ + padded_episode(ep, total_eps) + " "@ + ep_name + "."@ + ext
}

pub fn clean(raw: &str) -> (r: String)
    ensures
        r@ == clean_text(raw@),
{
    let n = raw.unicode_len();
    let mut r = String::new();
    let mut i: usize = 0;
    while i < n
        invariant
            n == raw@.len(),
            i <= n,
            r@ == clean_text(raw@.take(i as int)),
        decreases n - i,
    {
        let c = raw.get_char(i);
        let d = if c == ' ' {
            '_'
        } else if c == '/' {
            '|'
        } else {
            c
        };
        push_char(&mut r, d);
        i = i + 1;
        assert(r@ =~= clean_text(raw@.take(i as int)));
    }
    assert(raw@.take(n as int) =~= raw@);
    r
}

fn decimal_width(n: u32) -> (r: usize)
    ensures
        r == decimal_text(n as nat).len(),
{
    let mut s = String::new();
    push_decimal(&mut s, n as u64);
    assert(s@ =~= decimal_text(n as nat));
    s.unicode_len()
}

pub fn padded_episode_number(ep: &str, total_eps: u32) -> (r: String)
    ensures
        r@ == padded_episode(ep@, total_eps as nat),
{
    let width = decimal_width(total_eps);
    let len = ep.unicode_len();
    let mut r = String::new();
    if parse_decimal_u32(ep).is_ok() && len < width {
        let mut k: usize = 0;
        while k < width - len
            invariant
                k <= width - len,
                r@ == Seq::new(k as nat, |i: int| '0'),
            decreases width - len - k,
        {
            push_char(&mut r, '0');
            k = k + 1;
            assert(r@ =~= Seq::new(k as nat, |i: int| '0'));
        }
    }
    r.append(ep);
    assert(r@ =~= padded_episode(ep@, total_eps as nat));
    r
}

/// The directory and the file name, both cleaned, under which `file` goes in
/// the library; `None` when the series or the episode name is empty.
pub fn library_names(file: &File, ext: &str) -> (r: Option<(String, String)>)
    ensures
        file.series_romaji@.len() == 0 || file.ep_name@.len() == 0 ==> r is None,
        file.series_romaji@.len() > 0 && file.ep_name@.len() > 0 ==> (r matches Some(p) && p.0@
            == clean_text(file.series_romaji@) && p.1@ == clean_text(
            episode_file_name(
                file.series_romaji@,
                file.ep_number@,
                file.total_eps as nat,
                file.ep_name@,
                ext@,
            ),
        )),
{
    if file.series_romaji.unicode_len() == 0 || file.ep_name.unicode_len() == 0 {
        return None;
    }
    let mut name = String::from_str(file.series_romaji.as_str());
    name.append(" - ");
    let ep = padded_episode_number(file.ep_number.as_str(), file.total_eps);
    name.append(ep.as_str());
    name.append(" ");
    name.append(file.ep_name.as_str());
    name.append(".");
    name.append(ext);
    let dir = clean(file.series_romaji.as_str());
    let base = clean(name.as_str());
    Some((dir, base))
}

} // verus!
