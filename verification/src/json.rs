use vstd::prelude::*;

use crate::model::{BanModel, BanRequest, BanTarget, ban_model};
use crate::strutil::{chars_to_string, dec_digits, push_decimal};

verus! {

/// The digit character of one hexadecimal nibble, lower case.
pub open spec fn hex_char(d: int) -> char {
    if d == 0 {
        '0'
    } else if d == 1 {
        '1'
    } else if d == 2 {
        '2'
    } else if d == 3 {
        '3'
    } else if d == 4 {
        '4'
    } else if d == 5 {
        '5'
    } else if d == 6 {
        '6'
    } else if d == 7 {
        '7'
    } else if d == 8 {
        '8'
    } else if d == 9 {
        '9'
    } else if d == 10 {
        'a'
    } else if d == 11 {
        'b'
    } else if d == 12 {
        'c'
    } else if d == 13 {
        'd'
    } else if d == 14 {
        'e'
    } else {
        'f'
    }
}

/// How one character is written inside a JSON string: quotes and
/// backslashes are escaped, control characters take the `\u00XX` form,
/// everything else stands as itself.
pub open spec fn esc_char(c: char) -> Seq<char> {
    if c == '"' {
        seq!['\\', '"']
    } else if c == '\\' {
        seq!['\\', '\\']
    } else if (c as int) < 32 {
        seq!['\\', 'u', '0', '0', hex_char(c as int / 16), hex_char(c as int % 16)]
    } else {
        seq![c]
    }
}

/// A string's characters, escaped one by one.
pub open spec fn esc_str(s: Seq<char>) -> Seq<char>
    decreases s.len(),
{
    if s.len() == 0 {
        Seq::empty()
    } else {
        esc_char(s[0]) + esc_str(s.drop_first())
    }
}

/// A JSON string literal: the escaped characters between quotes.
pub open spec fn json_string(s: Seq<char>) -> Seq<char> {
    seq!['"'] + esc_str(s) + seq!['"']
}

/// The fixed pieces of the ban object, keys with their punctuation.
pub open spec fn target_key() -> Seq<char> {
    seq!['{', '"', 't', 'a', 'r', 'g', 'e', 't', '"', ':', '{']
}

pub open spec fn ip_key() -> Seq<char> {
    seq!['"', 'i', 'p', '"', ':']
}

pub open spec fn ua_key() -> Seq<char> {
    seq![',', '"', 'u', 's', 'e', 'r', '_', 'a', 'g', 'e', 'n', 't', '"', ':']
}

pub open spec fn ua_only_key() -> Seq<char> {
    seq!['"', 'u', 's', 'e', 'r', '_', 'a', 'g', 'e', 'n', 't', '"', ':']
}

pub open spec fn reason_key() -> Seq<char> {
    seq!['}', ',', '"', 'r', 'e', 'a', 's', 'o', 'n', '"', ':']
}

pub open spec fn ttl_key() -> Seq<char> {
    seq![',', '"', 't', 't', 'l', '"', ':']
}

/// The fields of the target object: present exactly for the populated
/// parts of the target.
pub open spec fn target_fields(b: BanModel) -> Seq<char> {
    match b.ip {
        Some(ip) => match b.user_agent {
            Some(ua) => ip_key() + json_string(ip) + ua_key() + json_string(ua),
            None => ip_key() + json_string(ip),
        },
        None => match b.user_agent {
            Some(ua) => ua_only_key() + json_string(ua),
            None => Seq::empty(),
        },
    }
}

/// The JSON encoding of a ban directive:
/// `{"target":{…},"reason":"…","ttl":N}`.
pub open spec fn ban_json(b: BanModel) -> Seq<char> {
    target_key() + target_fields(b) + reason_key() + json_string(b.reason) + ttl_key()
        + dec_digits(b.ttl) + seq!['}']
}

/// Append one character, escaped, to the output.
fn push_esc_char(out: &mut Vec<char>, c: char)
    ensures
        final(out)@ == old(out)@ + esc_char(c),
{
    if c == '"' {
        out.push('\\');
        out.push('"');
    } else if c == '\\' {
        out.push('\\');
        out.push('\\');
    } else if (c as u32) < 32 {
        let v = c as u32;
        out.push('\\');
        out.push('u');
        out.push('0');
        out.push('0');
        out.push(hex_char_exec((v / 16) as u8));
        out.push(hex_char_exec((v % 16) as u8));
    } else {
        out.push(c);
    }
    proof {
        assert(out@ =~= old(out)@ + esc_char(c));
    }
}

fn hex_char_exec(d: u8) -> (r: char)
    requires
        d < 16,
    ensures
        r == hex_char(d as int),
{
    if d == 0 {
        '0'
    } else if d == 1 {
        '1'
    } else if d == 2 {
        '2'
    } else if d == 3 {
        '3'
    } else if d == 4 {
        '4'
    } else if d == 5 {
        '5'
    } else if d == 6 {
        '6'
    } else if d == 7 {
        '7'
    } else if d == 8 {
        '8'
    } else if d == 9 {
        '9'
    } else if d == 10 {
        'a'
    } else if d == 11 {
        'b'
    } else if d == 12 {
        'c'
    } else if d == 13 {
        'd'
    } else if d == 14 {
        'e'
    } else {
        'f'
    }
}

/// Append a whole JSON string literal for `s`.
fn push_json_string(out: &mut Vec<char>, s: &str)
    ensures
        final(out)@ == old(out)@ + json_string(s@),
{
    out.push('"');
    let n = s.unicode_len();
    let mut i: usize = 0;
    while i < n
        invariant
            n == s@.len(),
            i <= n,
            out@ == old(out)@ + seq!['"'] + esc_str(s@.take(i as int)),
        decreases n - i,
    {
        let c = s.get_char(i);
        push_esc_char(out, c);
        proof {
            lemma_esc_str_snoc(s@.take(i as int), c);
            assert(s@.take(i as int).push(c) =~= s@.take(i as int + 1));
        }
        i = i + 1;
    }
    out.push('"');
    proof {
        assert(s@.take(n as int) =~= s@);
        assert(out@ =~= old(out)@ + json_string(s@));
    }
}

/// Escaping distributes over appending one character.
proof fn lemma_esc_str_snoc(s: Seq<char>, c: char)
    ensures
        esc_str(s.push(c)) == esc_str(s) + esc_char(c),
    decreases s.len(),
{
    if s.len() == 0 {
        assert(s.push(c)[0] == c);
        assert(s.push(c).drop_first() =~= Seq::<char>::empty());
        assert(esc_str(s.push(c)) == esc_char(c) + esc_str(s.push(c).drop_first()));
        assert(esc_str(s.push(c).drop_first()) == Seq::<char>::empty());
        assert(esc_str(s) == Seq::<char>::empty());
        assert(esc_str(s.push(c)) =~= esc_str(s) + esc_char(c));
    } else {
        assert(s.push(c)[0] == s[0]);
        assert(s.push(c).drop_first() =~= s.drop_first().push(c));
        lemma_esc_str_snoc(s.drop_first(), c);
        assert(esc_str(s.push(c)) == esc_char(s[0]) + esc_str(s.drop_first().push(c)));
        assert(esc_str(s) == esc_char(s[0]) + esc_str(s.drop_first()));
        assert(esc_str(s.push(c)) =~= esc_str(s) + esc_char(c));
    }
}

/// Append a fixed sequence of characters.
fn push_chars(out: &mut Vec<char>, cs: &[char])
    ensures
        final(out)@ == old(out)@ + cs@,
{
    let n = cs.len();
    let mut i: usize = 0;
    while i < n
        invariant
            n == cs@.len(),
            i <= n,
            out@ == old(out)@ + cs@.take(i as int),
        decreases n - i,
    {
        out.push(cs[i]);
        proof {
            assert(old(out)@ + cs@.take(i as int + 1) =~= (old(out)@ + cs@.take(i as int)).push(
                cs@[i as int],
            ));
        }
        i = i + 1;
    }
    proof {
        assert(cs@.take(n as int) =~= cs@);
        assert(out@ =~= old(out)@ + cs@);
    }
}

/// Serialize a ban directive to its JSON text.
pub fn ban_request_to_json(br: &BanRequest) -> (r: String)
    ensures
        r@ == ban_json(ban_model(*br)),
{
    let mut out: Vec<char> = Vec::new();
    let target: [char; 11] = ['{', '"', 't', 'a', 'r', 'g', 'e', 't', '"', ':', '{'];
    push_chars(&mut out, &target);
    proof {
        assert(target@ =~= target_key());
    }
    let ghost after_target = out@;
    match &br.target.ip {
        Some(ip) => {
            let ipk: [char; 5] = ['"', 'i', 'p', '"', ':'];
            push_chars(&mut out, &ipk);
            proof {
                assert(ipk@ =~= ip_key());
            }
            push_json_string(&mut out, ip.as_str());
            match &br.target.user_agent {
                Some(ua) => {
                    let uak: [char; 14] = [
                        ',',
                        '"',
                        'u',
                        's',
                        'e',
                        'r',
                        '_',
                        'a',
                        'g',
                        'e',
                        'n',
                        't',
                        '"',
                        ':',
                    ];
                    push_chars(&mut out, &uak);
                    proof {
                        assert(uak@ =~= ua_key());
                    }
                    push_json_string(&mut out, ua.as_str());
                },
                None => {},
            }
        },
        None => {
            match &br.target.user_agent {
                Some(ua) => {
                    let uak: [char; 13] = [
                        '"',
                        'u',
                        's',
                        'e',
                        'r',
                        '_',
                        'a',
                        'g',
                        'e',
                        'n',
                        't',
                        '"',
                        ':',
                    ];
                    push_chars(&mut out, &uak);
                    proof {
                        assert(uak@ =~= ua_only_key());
                    }
                    push_json_string(&mut out, ua.as_str());
                },
                None => {},
            }
        },
    }
    proof {
        assert(out@ =~= after_target + target_fields(ban_model(*br)));
    }
    let reasonk: [char; 11] = ['}', ',', '"', 'r', 'e', 'a', 's', 'o', 'n', '"', ':'];
    push_chars(&mut out, &reasonk);
    proof {
        assert(reasonk@ =~= reason_key());
    }
    push_json_string(&mut out, br.reason.as_str());
    let ttlk: [char; 7] = [',', '"', 't', 't', 'l', '"', ':'];
    push_chars(&mut out, &ttlk);
    proof {
        assert(ttlk@ =~= ttl_key());
    }
    push_decimal(br.ttl as u64, &mut out);
    out.push('}');
    proof {
        assert(out@ =~= ban_json(ban_model(*br)));
    }
    chars_to_string(&out)
}

/// The scalar value of one hexadecimal digit character, or -1.
pub open spec fn hex_val(c: char) -> int {
    if 48 <= c as int <= 57 {
        c as int - 48
    } else if 97 <= c as int <= 102 {
        c as int - 87
    } else {
        -1
    }
}

/// Consume an expected sequence off the front of the input.
pub open spec fn expect(s: Seq<char>, e: Seq<char>) -> Option<Seq<char>>
    decreases e.len(),
{
    if e.len() == 0 {
        Some(s)
    } else if s.len() > 0 && s[0] == e[0] {
        expect(s.drop_first(), e.drop_first())
    } else {
        None
    }
}

/// Parse the body of a JSON string up to its closing quote: the string
/// read, and the input after the quote. Exactly the escapes the
/// serializer writes are understood.
pub open spec fn parse_jstr_body(s: Seq<char>) -> Option<(Seq<char>, Seq<char>)>
    decreases s.len(),
{
    if s.len() == 0 {
        None
    } else if s[0] == '"' {
        Some((Seq::empty(), s.drop_first()))
    } else if s[0] == '\\' {
        if s.len() >= 2 && (s[1] == '"' || s[1] == '\\') {
            match parse_jstr_body(s.skip(2)) {
                Some(p) => Some((seq![s[1]] + p.0, p.1)),
                None => None,
            }
        } else if s.len() >= 6 && s[1] == 'u' && s[2] == '0' && s[3] == '0' && 0 <= hex_val(s[4])
            <= 1 && hex_val(s[5]) >= 0 {
            match parse_jstr_body(s.skip(6)) {
                Some(p) => Some(
                    (seq![(((hex_val(s[4]) * 16 + hex_val(s[5])) as u32) as char)] + p.0, p.1),
                ),
                None => None,
            }
        } else {
            None
        }
    } else {
        match parse_jstr_body(s.drop_first()) {
            Some(p) => Some((seq![s[0]] + p.0, p.1)),
            None => None,
        }
    }
}

/// Parse a whole JSON string literal.
pub open spec fn parse_jstring(s: Seq<char>) -> Option<(Seq<char>, Seq<char>)> {
    if s.len() > 0 && s[0] == '"' {
        parse_jstr_body(s.drop_first())
    } else {
        None
    }
}

pub open spec fn is_digit(c: char) -> bool {
    48 <= c as int <= 57
}

/// Length of the digit run at the front of the input.
pub open spec fn digit_prefix_len(s: Seq<char>) -> int
    decreases s.len(),
{
    if s.len() > 0 && is_digit(s[0]) {
        1 + digit_prefix_len(s.drop_first())
    } else {
        0
    }
}

/// The number a digit string denotes.
pub open spec fn dec_val(ds: Seq<char>) -> int
    decreases ds.len(),
{
    if ds.len() == 0 {
        0
    } else {
        dec_val(ds.drop_last()) * 10 + (ds.last() as int - 48)
    }
}

/// Parse an unsigned decimal number without leading zeros.
pub open spec fn parse_uint(s: Seq<char>) -> Option<(int, Seq<char>)> {
    let k = digit_prefix_len(s);
    if k == 0 {
        None
    } else if s[0] == '0' && k != 1 {
        None
    } else {
        Some((dec_val(s.take(k)), s.skip(k)))
    }
}

/// Parse the fields of the target object, stopping before the brace
/// that closes it.
pub open spec fn parse_target_fields(s: Seq<char>) -> Option<
    ((Option<Seq<char>>, Option<Seq<char>>), Seq<char>),
> {
    if s.len() > 0 && s[0] == '}' {
        Some(((None, None), s))
    } else {
        match expect(s, ip_key()) {
            Some(s1) => match parse_jstring(s1) {
                Some(p) => {
                    let ip = p.0;
                    let s2 = p.1;
                    if s2.len() > 0 && s2[0] == ',' {
                        match expect(s2, ua_key()) {
                            Some(s3) => match parse_jstring(s3) {
                                Some(q) => Some(((Some(ip), Some(q.0)), q.1)),
                                None => None,
                            },
                            None => None,
                        }
                    } else {
                        Some(((Some(ip), None), s2))
                    }
                },
                None => None,
            },
            None => match expect(s, ua_only_key()) {
                Some(s1) => match parse_jstring(s1) {
                    Some(p) => Some(((None, Some(p.0)), p.1)),
                    None => None,
                },
                None => None,
            },
        }
    }
}

/// Parse a whole ban directive from its JSON text. Exactly the texts
/// the serializer writes are accepted.
pub open spec fn parse_ban(s: Seq<char>) -> Option<BanModel> {
    match expect(s, target_key()) {
        Some(s1) => match parse_target_fields(s1) {
            Some(tp) => {
                let tgt = tp.0;
                match expect(tp.1, reason_key()) {
                    Some(s3) => match parse_jstring(s3) {
                        Some(rp) => match expect(rp.1, ttl_key()) {
                            Some(s5) => match parse_uint(s5) {
                                Some(up) => if 0 <= up.0 <= u32::MAX && up.1 == seq!['}'] {
                                    Some(
                                        BanModel {
                                            ip: tgt.0,
                                            user_agent: tgt.1,
                                            reason: rp.0,
                                            ttl: up.0,
                                        },
                                    )
                                } else {
                                    None
                                },
                                None => None,
                            },
                            None => None,
                        },
                        None => None,
                    },
                    None => None,
                }
            },
            None => None,
        },
        None => None,
    }
}

/// Relies on `char::from_u32`: per its documentation it returns `None`
/// exactly for surrogate code points and values above the Unicode
/// maximum, and otherwise the character with that value.
#[verifier::external_body]
fn char_from_u32(v: u32) -> (r: Option<char>)
    ensures
        match r {
            Some(c) => c as u32 == v,
            None => 0xD800 <= v <= 0xDFFF || v > 0x10FFFF,
        },
{
    char::from_u32(v)
}

/// The characters of a string, in order.
fn str_chars(s: &str) -> (v: Vec<char>)
    ensures
        v@ == s@,
{
    let n = s.unicode_len();
    let mut v: Vec<char> = Vec::new();
    let mut i: usize = 0;
    while i < n
        invariant
            n == s@.len(),
            i <= n,
            v@ == s@.take(i as int),
        decreases n - i,
    {
        v.push(s.get_char(i));
        proof {
            assert(s@.take(i as int).push(s@[i as int]) =~= s@.take(i as int + 1));
        }
        i = i + 1;
    }
    proof {
        assert(s@.take(n as int) =~= s@);
    }
    v
}

fn is_digit_exec(c: char) -> (r: bool)
    ensures
        r == is_digit(c),
{
    let u = c as u32;
    48 <= u && u <= 57
}

fn hex_val_exec(c: char) -> (r: i32)
    ensures
        r as int == hex_val(c),
{
    let u = c as u32;
    if 48 <= u && u <= 57 {
        (u - 48) as i32
    } else if 97 <= u && u <= 102 {
        (u - 87) as i32
    } else {
        -1
    }
}

/// Consume an expected sequence at a position of the input.
fn expect_at(v: &Vec<char>, pos: usize, e: &[char]) -> (r: Option<usize>)
    requires
        pos <= v@.len(),
    ensures
        match r {
            Some(p) => pos <= p <= v@.len() && expect(v@.skip(pos as int), e@) == Some(
                v@.skip(p as int),
            ),
            None => expect(v@.skip(pos as int), e@) is None,
        },
{
    let n = e.len();
    let vn = v.len();
    let mut j: usize = 0;
    proof {
        assert(v@.skip(pos as int + 0) =~= v@.skip(pos as int));
        assert(e@.skip(0) =~= e@);
    }
    while j < n
        invariant
            n == e@.len(),
            vn == v@.len(),
            j <= n,
            pos <= vn,
            pos + j <= vn,
            expect(v@.skip(pos as int), e@) == expect(
                v@.skip(pos as int + j as int),
                e@.skip(j as int),
            ),
        decreases n - j,
    {
        proof {
            let s = v@.skip(pos as int + j as int);
            let er = e@.skip(j as int);
            assert(er[0] == e@[j as int]);
            if pos + j < v@.len() {
                assert(s[0] == v@[pos as int + j as int]);
                assert(s.drop_first() =~= v@.skip(pos as int + j as int + 1));
            }
            assert(er.drop_first() =~= e@.skip(j as int + 1));
        }
        if pos + j >= vn {
            return None;
        }
        if v[pos + j] != e[j] {
            return None;
        }
        j = j + 1;
    }
    proof {
        assert(e@.skip(n as int) =~= Seq::<char>::empty());
    }
    Some(pos + n)
}

/// Parse a JSON string literal at a position, returning its characters
/// and the position after the closing quote.
fn parse_jstring_at(v: &Vec<char>, pos: usize) -> (r: Option<(Vec<char>, usize)>)
    requires
        pos <= v@.len(),
    ensures
        match r {
            Some(p) => p.1 <= v@.len() && parse_jstring(v@.skip(pos as int)) == Some(
                (p.0@, v@.skip(p.1 as int)),
            ),
            None => parse_jstring(v@.skip(pos as int)) is None,
        },
{
    if pos >= v.len() {
        proof {
            assert(v@.skip(pos as int) =~= Seq::<char>::empty());
        }
        return None;
    }
    proof {
        assert(v@.skip(pos as int)[0] == v@[pos as int]);
    }
    if v[pos] != '"' {
        return None;
    }
    proof {
        assert(v@.skip(pos as int).drop_first() =~= v@.skip(pos as int + 1));
    }
    let mut acc: Vec<char> = Vec::new();
    let vn = v.len();
    let mut j: usize = pos + 1;
    while j < vn
        invariant
            vn == v@.len(),
            pos < vn,
            pos + 1 <= j <= vn,
            parse_jstring(v@.skip(pos as int)) == parse_jstr_body(v@.skip(pos as int + 1)),
            match parse_jstr_body(v@.skip(j as int)) {
                Some(p2) => parse_jstr_body(v@.skip(pos as int + 1)) == Some(
                    (acc@ + p2.0, p2.1),
                ),
                None => parse_jstr_body(v@.skip(pos as int + 1)) is None,
            },
        decreases vn - j,
    {
        let ghost s = v@.skip(j as int);
        proof {
            assert(s[0] == v@[j as int]);
            assert(s.len() == v@.len() - j);
            assert(s.drop_first() =~= v@.skip(j as int + 1));
        }
        let c = v[j];
        if c == '"' {
            proof {
                assert(parse_jstr_body(s) == Some(
                    (Seq::<char>::empty(), v@.skip(j as int + 1)),
                ));
                assert(acc@ + Seq::<char>::empty() =~= acc@);
            }
            return Some((acc, j + 1));
        }
        if c == '\\' {
            if vn - j > 1 && (v[j + 1] == '"' || v[j + 1] == '\\') {
                proof {
                    assert(s[1] == v@[j as int + 1]);
                    assert(s.skip(2) =~= v@.skip(j as int + 2));
                }
                let ghost acc0 = acc@;
                acc.push(v[j + 1]);
                proof {
                    assert forall|p2: (Seq<char>, Seq<char>)|
                        parse_jstr_body(v@.skip(j as int + 2)) == Some(p2) implies acc0 + (
                    seq![v@[j as int + 1]] + p2.0) =~= acc@ + p2.0 by {}
                }
                j = j + 2;
            } else if vn - j > 5 && v[j + 1] == 'u' && v[j + 2] == '0' && v[j + 3] == '0' {
                let h4 = hex_val_exec(v[j + 4]);
                let h5 = hex_val_exec(v[j + 5]);
                if !(0 <= h4 && h4 <= 1 && h5 >= 0) {
                    proof {
                        assert(s[1] == v@[j as int + 1]);
                        assert(s[2] == v@[j as int + 2]);
                        assert(s[3] == v@[j as int + 3]);
                        assert(s[4] == v@[j as int + 4]);
                        assert(s[5] == v@[j as int + 5]);
                        assert(parse_jstr_body(s) is None);
                    }
                    return None;
                }
                proof {
                    assert(s[1] == v@[j as int + 1]);
                    assert(s[2] == v@[j as int + 2]);
                    assert(s[3] == v@[j as int + 3]);
                    assert(s[4] == v@[j as int + 4]);
                    assert(s[5] == v@[j as int + 5]);
                    assert(s.skip(6) =~= v@.skip(j as int + 6));
                }
                let value = (h4 * 16 + h5) as u32;
                let c2 = match char_from_u32(value) {
                    Some(c2) => c2,
                    None => {
                        proof {
                            assert(false);
                        }
                        return None;
                    },
                };
                proof {
                    assert(c2 as u32 == value);
                    vstd::utf8::char_u32_cast(c2, value);
                    assert((value as u32) as char == c2);
                    assert(value as int == hex_val(v@[j as int + 4]) * 16 + hex_val(
                        v@[j as int + 5],
                    ));
                }
                let ghost acc0 = acc@;
                acc.push(c2);
                proof {
                    assert forall|p2: (Seq<char>, Seq<char>)|
                        parse_jstr_body(v@.skip(j as int + 6)) == Some(p2) implies acc0 + (
                    seq![c2] + p2.0) =~= acc@ + p2.0 by {}
                }
                j = j + 6;
            } else {
                proof {
                    if s.len() >= 2 {
                        assert(s[1] == v@[j as int + 1]);
                    }
                    if s.len() >= 6 {
                        assert(s[1] == v@[j as int + 1]);
                        assert(s[2] == v@[j as int + 2]);
                        assert(s[3] == v@[j as int + 3]);
                    }
                    assert(parse_jstr_body(s) is None);
                }
                return None;
            }
        } else {
            let ghost acc0 = acc@;
            acc.push(c);
            proof {
                assert forall|p2: (Seq<char>, Seq<char>)|
                    parse_jstr_body(v@.skip(j as int + 1)) == Some(p2) implies acc0 + (seq![c]
                    + p2.0) =~= acc@ + p2.0 by {}
            }
            j = j + 1;
        }
    }
    proof {
        assert(v@.skip(j as int) =~= Seq::<char>::empty());
    }
    None
}

/// A digit string's value never shrinks as digits are appended.
proof fn lemma_dec_val_mono(ds: Seq<char>, i: int)
    requires
        0 <= i <= ds.len(),
        forall|k: int| 0 <= k < ds.len() ==> is_digit(#[trigger] ds[k]),
    ensures
        dec_val(ds) >= dec_val(ds.take(i)),
        dec_val(ds.take(i)) >= 0,
    decreases ds.len() - i,
{
    if i == ds.len() {
        assert(ds.take(i) =~= ds);
        lemma_dec_val_nonneg(ds);
    } else {
        lemma_dec_val_mono(ds, i + 1);
        assert(ds.take(i + 1).drop_last() =~= ds.take(i));
        assert(ds.take(i + 1).last() == ds[i]);
        lemma_dec_val_nonneg(ds.take(i));
    }
}

/// A digit string's value is not negative.
proof fn lemma_dec_val_nonneg(ds: Seq<char>)
    requires
        forall|k: int| 0 <= k < ds.len() ==> is_digit(#[trigger] ds[k]),
    ensures
        dec_val(ds) >= 0,
    decreases ds.len(),
{
    if ds.len() > 0 {
        assert(forall|k: int|
            0 <= k < ds.drop_last().len() ==> is_digit(#[trigger] ds.drop_last()[k]));
        lemma_dec_val_nonneg(ds.drop_last());
        assert(ds.last() == ds[ds.len() - 1]);
    }
}

/// Parse an unsigned decimal at a position. Fails where the grammar
/// does, and also where the value does not fit the ttl's type.
fn parse_uint_at(v: &Vec<char>, pos: usize) -> (r: Option<(u32, usize)>)
    requires
        pos <= v@.len(),
    ensures
        match r {
            Some(p) => p.1 <= v@.len() && (match parse_uint(v@.skip(pos as int)) {
                Some(u) => u.0 == p.0 as int && u.1 == v@.skip(p.1 as int),
                None => false,
            }),
            None => match parse_uint(v@.skip(pos as int)) {
                Some(u) => u.0 > u32::MAX,
                None => true,
            },
        },
{
    let vn = v.len();
    let mut end: usize = pos;
    proof {
        assert(digit_prefix_len(v@.skip(pos as int)) == (pos - pos) + digit_prefix_len(
            v@.skip(pos as int),
        ));
    }
    while end < vn && is_digit_exec(v[end])
        invariant
            vn == v@.len(),
            pos <= end <= vn,
            digit_prefix_len(v@.skip(pos as int)) == (end - pos) + digit_prefix_len(
                v@.skip(end as int),
            ),
            forall|k: int| pos <= k < end ==> is_digit(#[trigger] v@[k]),
        decreases vn - end,
    {
        proof {
            let t = v@.skip(end as int);
            assert(t[0] == v@[end as int]);
            assert(t.drop_first() =~= v@.skip(end as int + 1));
        }
        end = end + 1;
    }
    proof {
        let t = v@.skip(end as int);
        if end < vn {
            assert(t[0] == v@[end as int]);
            assert(digit_prefix_len(t) == 0);
        } else {
            assert(t =~= Seq::<char>::empty());
            assert(digit_prefix_len(t) == 0);
        }
        assert(digit_prefix_len(v@.skip(pos as int)) == end - pos);
    }
    if end == pos {
        return None;
    }
    if v[pos] == '0' && end - pos != 1 {
        proof {
            assert(v@.skip(pos as int)[0] == v@[pos as int]);
        }
        return None;
    }
    let ghost ds = v@.subrange(pos as int, end as int);
    proof {
        assert(v@.skip(pos as int)[0] == v@[pos as int]);
        assert(v@.skip(pos as int).take(end - pos) =~= ds);
        assert(v@.skip(pos as int).skip(end - pos) =~= v@.skip(end as int));
        assert(forall|k: int| 0 <= k < ds.len() ==> is_digit(#[trigger] ds[k]));
        assert(ds.take(0) =~= Seq::<char>::empty());
        assert(parse_uint(v@.skip(pos as int)) == Some((dec_val(ds), v@.skip(end as int))));
    }
    let mut acc: u64 = 0;
    let mut m: usize = pos;
    while m < end
        invariant
            vn == v@.len(),
            pos <= m <= end <= vn,
            ds == v@.subrange(pos as int, end as int),
            forall|k: int| 0 <= k < ds.len() ==> is_digit(#[trigger] ds[k]),
            acc as int == dec_val(ds.take(m - pos)),
            acc <= u32::MAX,
            digit_prefix_len(v@.skip(pos as int)) == end - pos,
            parse_uint(v@.skip(pos as int)) == Some(
                (dec_val(ds), v@.skip(end as int)),
            ),
        decreases end - m,
    {
        proof {
            assert(ds[m - pos] == v@[m as int]);
            assert(is_digit(v@[m as int]));
            assert(ds.take(m - pos + 1).drop_last() =~= ds.take(m - pos));
            assert(ds.take(m - pos + 1).last() == ds[m - pos]);
        }
        let d = (v[m] as u32) - 48;
        let next = acc * 10 + (d as u64);
        if next > 0xFFFF_FFFF {
            proof {
                lemma_dec_val_mono(ds, m - pos + 1);
            }
            return None;
        }
        acc = next;
        m = m + 1;
    }
    proof {
        assert(ds.take(end - pos) =~= ds);
    }
    Some((acc as u32, end))
}

/// Parse the target object's fields at a position, stopping before the
/// brace that closes the target.
fn parse_target_fields_at(v: &Vec<char>, pos: usize) -> (r: Option<
    ((Option<Vec<char>>, Option<Vec<char>>), usize),
>)
    requires
        pos <= v@.len(),
    ensures
        match r {
            Some(p) => p.1 <= v@.len() && (match parse_target_fields(v@.skip(pos as int)) {
                Some(q) => {
                    &&& q.1 == v@.skip(p.1 as int)
                    &&& q.0.0 == match p.0.0 {
                        Some(ref ip) => Some(ip@),
                        None => None::<Seq<char>>,
                    }
                    &&& q.0.1 == match p.0.1 {
                        Some(ref ua) => Some(ua@),
                        None => None::<Seq<char>>,
                    }
                },
                None => false,
            }),
            None => parse_target_fields(v@.skip(pos as int)) is None,
        },
{
    let vn = v.len();
    if pos < vn {
        proof {
            assert(v@.skip(pos as int)[0] == v@[pos as int]);
        }
        if v[pos] == '}' {
            return Some(((None, None), pos));
        }
    }
    let ipk: [char; 5] = ['"', 'i', 'p', '"', ':'];
    proof {
        assert(ipk@ =~= ip_key());
    }
    match expect_at(v, pos, &ipk) {
        Some(s1) => {
            match parse_jstring_at(v, s1) {
                Some((ip, s2)) => {
                    let mut comma = false;
                    if s2 < vn {
                        proof {
                            assert(v@.skip(s2 as int)[0] == v@[s2 as int]);
                        }
                        if v[s2] == ',' {
                            comma = true;
                        }
                    }
                    if comma {
                        let uak: [char; 14] = [
                            ',',
                            '"',
                            'u',
                            's',
                            'e',
                            'r',
                            '_',
                            'a',
                            'g',
                            'e',
                            'n',
                            't',
                            '"',
                            ':',
                        ];
                        proof {
                            assert(uak@ =~= ua_key());
                        }
                        match expect_at(v, s2, &uak) {
                            Some(s3) => {
                                match parse_jstring_at(v, s3) {
                                    Some((ua, s4)) => Some(((Some(ip), Some(ua)), s4)),
                                    None => None,
                                }
                            },
                            None => None,
                        }
                    } else {
                        proof {
                            if s2 >= vn {
                                assert(v@.skip(s2 as int) =~= Seq::<char>::empty());
                            }
                        }
                        Some(((Some(ip), None), s2))
                    }
                },
                None => None,
            }
        },
        None => {
            let uaok: [char; 13] = [
                '"',
                'u',
                's',
                'e',
                'r',
                '_',
                'a',
                'g',
                'e',
                'n',
                't',
                '"',
                ':',
            ];
            proof {
                assert(uaok@ =~= ua_only_key());
            }
            match expect_at(v, pos, &uaok) {
                Some(s1) => {
                    match parse_jstring_at(v, s1) {
                        Some((ua, s2)) => Some(((None, Some(ua)), s2)),
                        None => None,
                    }
                },
                None => None,
            }
        },
    }
}

/// Parse a ban directive from its JSON text: exactly the texts
/// `ban_request_to_json` writes are accepted.
pub fn ban_request_from_json(s: &str) -> (r: Option<BanRequest>)
    ensures
        match r {
            Some(br) => parse_ban(s@) == Some(ban_model(br)),
            None => parse_ban(s@) is None,
        },
{
    let v = str_chars(s);
    proof {
        assert(v@.skip(0) =~= v@);
    }
    let tk: [char; 11] = ['{', '"', 't', 'a', 'r', 'g', 'e', 't', '"', ':', '{'];
    proof {
        assert(tk@ =~= target_key());
    }
    let s1 = match expect_at(&v, 0, &tk) {
        Some(p) => p,
        None => {
            return None;
        },
    };
    let (tgt, s2) = match parse_target_fields_at(&v, s1) {
        Some(p) => p,
        None => {
            return None;
        },
    };
    let rk: [char; 11] = ['}', ',', '"', 'r', 'e', 'a', 's', 'o', 'n', '"', ':'];
    proof {
        assert(rk@ =~= reason_key());
    }
    let s3 = match expect_at(&v, s2, &rk) {
        Some(p) => p,
        None => {
            return None;
        },
    };
    let (reason_chars, s4) = match parse_jstring_at(&v, s3) {
        Some(p) => p,
        None => {
            return None;
        },
    };
    let tt: [char; 7] = [',', '"', 't', 't', 'l', '"', ':'];
    proof {
        assert(tt@ =~= ttl_key());
    }
    let s5 = match expect_at(&v, s4, &tt) {
        Some(p) => p,
        None => {
            return None;
        },
    };
    let (ttl, s6) = match parse_uint_at(&v, s5) {
        Some(p) => p,
        None => {
            return None;
        },
    };
    if v.len() - s6 != 1 {
        proof {
            assert(v@.skip(s6 as int).len() != 1);
            assert(v@.skip(s6 as int) != seq!['}']);
        }
        return None;
    }
    proof {
        assert(v@.skip(s6 as int)[0] == v@[s6 as int]);
    }
    if v[s6] != '}' {
        proof {
            assert(v@.skip(s6 as int) != seq!['}']);
        }
        return None;
    }
    proof {
        assert(v@.skip(s6 as int) =~= seq!['}']);
    }
    let ip = match tgt.0 {
        Some(cs) => Some(chars_to_string(&cs)),
        None => None,
    };
    let user_agent = match tgt.1 {
        Some(cs) => Some(chars_to_string(&cs)),
        None => None,
    };
    let reason = chars_to_string(&reason_chars);
    Some(BanRequest { target: BanTarget { ip, user_agent }, reason, ttl })
}

} // verus!
