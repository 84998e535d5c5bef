use vstd::prelude::*;

use crate::json::{
    ban_json, dec_val, digit_prefix_len, esc_char, esc_str, expect, hex_char, hex_val, ip_key,
    is_digit, json_string, parse_ban, parse_jstr_body, parse_jstring, parse_target_fields,
    parse_uint, reason_key, target_fields, target_key, ttl_key, ua_key, ua_only_key,
};
use crate::model::BanModel;
use crate::strutil::{dec_digits, digit_char};

verus! {

/// Consuming a sequence off an input that starts with it leaves the
/// rest.
pub proof fn lemma_expect_prefix(e: Seq<char>, rest: Seq<char>)
    ensures
        expect(e + rest, e) == Some(rest),
    decreases e.len(),
{
    if e.len() == 0 {
        assert(e + rest =~= rest);
    } else {
        assert((e + rest)[0] == e[0]);
        assert((e + rest).drop_first() =~= e.drop_first() + rest);
        lemma_expect_prefix(e.drop_first(), rest);
    }
}

/// The hex digits the serializer writes carry their value back.
proof fn lemma_hex_char_val(d: int)
    requires
        0 <= d < 16,
    ensures
        hex_val(hex_char(d)) == d,
{
}

/// Parsing one escaped character off the front of a string body.
proof fn lemma_esc_char_parse(c: char, tail: Seq<char>, t: Seq<char>, rest: Seq<char>)
    requires
        parse_jstr_body(tail) == Some((t, rest)),
    ensures
        parse_jstr_body(esc_char(c) + tail) == Some((seq![c] + t, rest)),
{
    broadcast use vstd::utf8::char_u32_cast;

    let inp = esc_char(c) + tail;
    if c == '"' {
        assert(inp[0] == '\\');
        assert(inp[1] == '"');
        assert(inp.skip(2) =~= tail);
        assert(seq![inp[1]] + t =~= seq![c] + t);
    } else if c == '\\' {
        assert(inp[0] == '\\');
        assert(inp[1] == '\\');
        assert(inp.skip(2) =~= tail);
        assert(seq![inp[1]] + t =~= seq![c] + t);
    } else if (c as int) < 32 {
        assert(c as int >= 0);
        assert(inp[0] == '\\');
        assert(inp[1] == 'u');
        assert(inp[2] == '0');
        assert(inp[3] == '0');
        assert(inp[4] == hex_char(c as int / 16));
        assert(inp[5] == hex_char(c as int % 16));
        lemma_hex_char_val(c as int / 16);
        lemma_hex_char_val(c as int % 16);
        assert(0 <= hex_val(inp[4]) <= 1);
        assert(hex_val(inp[5]) >= 0);
        assert(inp.skip(6) =~= tail);
        assert(hex_val(inp[4]) * 16 + hex_val(inp[5]) == c as int);
        assert(((c as int) as u32) as char == c) by {
            assert((c as int) as u32 == c as u32);
        }
        assert(seq![(((hex_val(inp[4]) * 16 + hex_val(inp[5])) as u32) as char)] + t =~= seq![c]
            + t);
    } else {
        assert(inp[0] == c);
        assert(inp[0] != '"' && inp[0] != '\\');
        assert(inp.drop_first() =~= tail);
        assert(seq![inp[0]] + t =~= seq![c] + t);
    }
}

/// The string escape round trip: the escaped text followed by a
/// closing quote and anything else parses back to the original string.
pub proof fn lemma_jstr_round(s: Seq<char>, rest: Seq<char>)
    ensures
        parse_jstr_body(esc_str(s) + seq!['"'] + rest) == Some((s, rest)),
    decreases s.len(),
{
    if s.len() == 0 {
        assert(esc_str(s) + seq!['"'] + rest =~= seq!['"'] + rest);
        let inp = seq!['"'] + rest;
        assert(inp[0] == '"');
        assert(inp.drop_first() =~= rest);
    } else {
        let c = s[0];
        let tail = esc_str(s.drop_first()) + seq!['"'] + rest;
        assert(esc_str(s) == esc_char(c) + esc_str(s.drop_first()));
        assert(esc_str(s) + seq!['"'] + rest =~= esc_char(c) + tail);
        lemma_jstr_round(s.drop_first(), rest);
        lemma_esc_char_parse(c, tail, s.drop_first(), rest);
        assert(seq![c] + s.drop_first() =~= s);
    }
}

/// The JSON string literal round trip.
pub proof fn lemma_jstring_round(s: Seq<char>, rest: Seq<char>)
    ensures
        parse_jstring(json_string(s) + rest) == Some((s, rest)),
{
    let inp = json_string(s) + rest;
    assert(inp[0] == '"');
    assert(inp.drop_first() =~= esc_str(s) + seq!['"'] + rest);
    lemma_jstr_round(s, rest);
}

/// Every character the decimal writer emits is a digit.
proof fn lemma_dec_digits_are_digits(n: int)
    requires
        n >= 0,
    ensures
        forall|i: int| 0 <= i < dec_digits(n).len() ==> is_digit(#[trigger] dec_digits(n)[i]),
        dec_digits(n).len() >= 1,
    decreases n,
{
    if n < 10 {
    } else {
        lemma_dec_digits_are_digits(n / 10);
        assert forall|i: int| 0 <= i < dec_digits(n).len() implies is_digit(
            #[trigger] dec_digits(n)[i],
        ) by {
            if i < dec_digits(n / 10).len() {
                assert(dec_digits(n)[i] == dec_digits(n / 10)[i]);
            } else {
                assert(dec_digits(n)[i] == digit_char(n % 10));
            }
        }
    }
}

/// A positive number's decimal text does not start with a zero.
proof fn lemma_dec_digits_no_leading_zero(n: int)
    requires
        n >= 1,
    ensures
        dec_digits(n)[0] != '0',
    decreases n,
{
    if n < 10 {
    } else {
        lemma_dec_digits_no_leading_zero(n / 10);
        assert(dec_digits(n)[0] == dec_digits(n / 10)[0]);
    }
}

/// The digit run of a digit string followed by a non-digit is the
/// digit string itself.
proof fn lemma_digit_prefix(ds: Seq<char>, rest: Seq<char>)
    requires
        forall|i: int| 0 <= i < ds.len() ==> is_digit(#[trigger] ds[i]),
        rest.len() > 0,
        !is_digit(rest[0]),
    ensures
        digit_prefix_len(ds + rest) == ds.len(),
    decreases ds.len(),
{
    if ds.len() == 0 {
        assert(ds + rest =~= rest);
    } else {
        assert((ds + rest)[0] == ds[0]);
        assert((ds + rest).drop_first() =~= ds.drop_first() + rest);
        assert forall|i: int| 0 <= i < ds.drop_first().len() implies is_digit(
            #[trigger] ds.drop_first()[i],
        ) by {
            assert(ds.drop_first()[i] == ds[i + 1]);
        }
        lemma_digit_prefix(ds.drop_first(), rest);
    }
}

/// The decimal writer and the decimal reader are inverse.
proof fn lemma_dec_val_round(n: int)
    requires
        n >= 0,
    ensures
        dec_val(dec_digits(n)) == n,
    decreases n,
{
    if n < 10 {
        assert(dec_digits(n) == seq![digit_char(n)]);
        assert(dec_digits(n).drop_last() =~= Seq::<char>::empty());
        assert(dec_val(Seq::<char>::empty()) == 0);
        assert(dec_digits(n).last() == digit_char(n));
        assert(dec_val(dec_digits(n)) == dec_val(dec_digits(n).drop_last()) * 10 + (dec_digits(
            n,
        ).last() as int - 48));
        assert(digit_char(n) as int - 48 == n);
    } else {
        lemma_dec_val_round(n / 10);
        let ds = dec_digits(n);
        assert(ds == dec_digits(n / 10).push(digit_char(n % 10)));
        assert(ds.drop_last() =~= dec_digits(n / 10));
        assert(ds.last() == digit_char(n % 10));
        assert(digit_char(n % 10) as int - 48 == n % 10);
        assert(dec_val(ds) == (n / 10) * 10 + n % 10);
        assert((n / 10) * 10 + n % 10 == n) by {
            vstd::arithmetic::div_mod::lemma_fundamental_div_mod(n, 10);
        }
    }
}

/// The decimal number round trip, up to a non-digit.
pub proof fn lemma_uint_round(n: int, rest: Seq<char>)
    requires
        n >= 0,
        rest.len() > 0,
        !is_digit(rest[0]),
    ensures
        parse_uint(dec_digits(n) + rest) == Some((n, rest)),
{
    let ds = dec_digits(n);
    lemma_dec_digits_are_digits(n);
    lemma_digit_prefix(ds, rest);
    let inp = ds + rest;
    let k = digit_prefix_len(inp);
    assert(k == ds.len());
    assert(inp.take(k) =~= ds);
    assert(inp.skip(k) =~= rest);
    lemma_dec_val_round(n);
    if n >= 1 {
        lemma_dec_digits_no_leading_zero(n);
        assert(inp[0] == ds[0]);
    } else {
        assert(ds == seq![digit_char(0)]);
        assert(k == 1);
    }
}

/// The target-fields round trip, for each shape of target.
proof fn lemma_target_fields_round(b: BanModel, rest: Seq<char>)
    requires
        rest.len() > 0,
        rest[0] == '}',
    ensures
        parse_target_fields(target_fields(b) + rest) == Some(((b.ip, b.user_agent), rest)),
{
    let inp = target_fields(b) + rest;
    match b.ip {
        Some(ip) => {
            match b.user_agent {
                Some(ua) => {
                    let after_ip = ua_key() + json_string(ua) + rest;
                    assert(inp =~= ip_key() + (json_string(ip) + after_ip));
                    assert(inp[0] == '"');
                    lemma_expect_prefix(ip_key(), json_string(ip) + after_ip);
                    lemma_jstring_round(ip, after_ip);
                    assert(after_ip[0] == ',');
                    assert(after_ip =~= ua_key() + (json_string(ua) + rest));
                    lemma_expect_prefix(ua_key(), json_string(ua) + rest);
                    lemma_jstring_round(ua, rest);
                },
                None => {
                    assert(inp =~= ip_key() + (json_string(ip) + rest));
                    assert(inp[0] == '"');
                    lemma_expect_prefix(ip_key(), json_string(ip) + rest);
                    lemma_jstring_round(ip, rest);
                    assert(rest[0] == '}');
                },
            }
        },
        None => {
            match b.user_agent {
                Some(ua) => {
                    assert(inp =~= ua_only_key() + (json_string(ua) + rest));
                    assert(inp[0] == '"');
                    // the input names the user-agent key, not the ip key
                    assert(expect(inp, ip_key()) is None) by {
                        assert(inp[0] == ip_key()[0]);
                        assert(expect(inp, ip_key()) == expect(
                            inp.drop_first(),
                            ip_key().drop_first(),
                        ));
                        assert(inp.drop_first().len() > 0);
                        assert(inp.drop_first()[0] == 'u');
                        assert(ip_key().drop_first()[0] == 'i');
                        assert(expect(inp.drop_first(), ip_key().drop_first()) is None);
                    }
                    lemma_expect_prefix(ua_only_key(), json_string(ua) + rest);
                    lemma_jstring_round(ua, rest);
                },
                None => {
                    assert(inp =~= rest);
                    assert(inp[0] == '}');
                },
            }
        },
    }
}

/// The ban directive round trip: the JSON text the serializer writes
/// parses back to exactly the directive it came from.
pub proof fn lemma_ban_json_round_trip(b: BanModel)
    requires
        0 <= b.ttl <= u32::MAX,
    ensures
        parse_ban(ban_json(b)) == Some(b),
{
    let fields = target_fields(b);
    let tail1 = fields + reason_key() + json_string(b.reason) + ttl_key() + dec_digits(b.ttl)
        + seq!['}'];
    assert(ban_json(b) =~= target_key() + tail1);
    lemma_expect_prefix(target_key(), tail1);
    let after_fields = reason_key() + json_string(b.reason) + ttl_key() + dec_digits(b.ttl)
        + seq!['}'];
    assert(tail1 =~= fields + after_fields);
    assert(after_fields[0] == '}');
    lemma_target_fields_round(b, after_fields);
    let after_reason_key = json_string(b.reason) + (ttl_key() + dec_digits(b.ttl) + seq!['}']);
    assert(after_fields =~= reason_key() + after_reason_key);
    lemma_expect_prefix(reason_key(), after_reason_key);
    lemma_jstring_round(b.reason, ttl_key() + dec_digits(b.ttl) + seq!['}']);
    let after_ttl_key = dec_digits(b.ttl) + seq!['}'];
    assert(ttl_key() + dec_digits(b.ttl) + seq!['}'] =~= ttl_key() + after_ttl_key);
    lemma_expect_prefix(ttl_key(), after_ttl_key);
    assert(!is_digit('}'));
    lemma_uint_round(b.ttl, seq!['}']);
}

} // verus!
