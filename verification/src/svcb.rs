//! Service bindings: the RDATA of SVCB and HTTPS records (RFC 9460) from their stored
//! form `"<priority> <target> [<key>[=<value>] ...]"`.
//!
//! Parameters are stored in ascending order of key, as they stand on the wire.
use vstd::prelude::*;
use vstd::slice::slice_subrange;
use vstd::string::*;
use vstd::utf8::encode_utf8;

use crate::addr::{after, before, find_char, holds, ipv4_of, ipv6_from_str, ipv6_of, parse_ipv4};
use crate::codec::{
    base64_decode, base64_decoded, be128, be16, be32, push_be128, push_be16, push_be32,
};
use crate::names::{canonical_form, canonical_name};
use crate::text::{
    chars_of, eq_text, parse_digits, parse_digits_max, parse_unsigned, parse_unsigned_max, split,
    split_chars, split_words, string_of, texts, words,
};

verus! {

broadcast use vstd::string::group_string_axioms;

/// The number behind the word `key`, without superfluous leading zeros.
pub open spec fn numbered_key(name: Seq<char>) -> Option<nat> {
    if name.len() > 3 && name.subrange(0, 3) == seq!['k', 'e', 'y'] && (name.len() > 4 ==> name[3]
        != '0') {
        parse_digits(name.subrange(3, name.len() as int), 0xffff)
    } else {
        None
    }
}

/// The number of a service parameter key.
pub open spec fn key_number(name: Seq<char>) -> Option<nat> {
    if name == "mandatory"@ {
        Some(0)
    } else if name == "alpn"@ {
        Some(1)
    } else if name == "no-default-alpn"@ {
        Some(2)
    } else if name == "port"@ {
        Some(3)
    } else if name == "ipv4hint"@ {
        Some(4)
    } else if name == "ech"@ {
        Some(5)
    } else if name == "ipv6hint"@ {
        Some(6)
    } else {
        numbered_key(name)
    }
}

/// One item of a list value.
pub open spec fn list_item(key: nat, item: Seq<char>) -> Option<Seq<u8>> {
    if key == 0 {
        match key_number(item) {
            Some(k) => Some(be16(k as u16)),
            None => None,
        }
    } else if key == 1 {
        let octets = encode_utf8(item);
        if 1 <= octets.len() <= 255 {
            Some(seq![octets.len() as u8] + octets)
        } else {
            None
        }
    } else if key == 4 {
        match ipv4_of(item) {
            Some(a) => Some(be32(a)),
            None => None,
        }
    } else {
        match ipv6_of(item) {
            Some(a) => Some(be128(a)),
            None => None,
        }
    }
}

/// The items of a list value, one after another.
pub open spec fn list_items(key: nat, items: Seq<Seq<char>>) -> Option<Seq<u8>>
    decreases items.len(),
{
    if items.len() == 0 {
        Some(Seq::empty())
    } else {
        match (list_items(key, items.drop_last()), list_item(key, items.last())) {
            (Some(a), Some(b)) => Some(a + b),
            _ => None,
        }
    }
}

/// The wire form of a parameter's value.
pub open spec fn param_value(key: nat, value: Option<Seq<char>>) -> Option<Seq<u8>> {
    match value {
        None => if key == 2 || key > 6 {
            Some(Seq::empty())
        } else {
            None
        },
        Some(text) => if key == 2 {
            None
        } else if key == 3 {
            match parse_unsigned(text, 0xffff) {
                Some(p) => Some(be16(p as u16)),
                None => None,
            }
        } else if key == 5 {
            base64_decoded(text)
        } else if key > 6 {
            Some(encode_utf8(text))
        } else {
            list_items(key, split(text, ','))
        },
    }
}

/// The key of a parameter word.
pub open spec fn param_key(word: Seq<char>) -> Option<nat> {
    key_number(before(word, '='))
}

/// A parameter word on the wire: key, length and value.
pub open spec fn param_octets(word: Seq<char>) -> Option<Seq<u8>> {
    let value = if holds(word, '=') {
        Some(after(word, '='))
    } else {
        None
    };
    match param_key(word) {
        Some(k) => match param_value(k, value) {
            Some(v) => if v.len() <= 0xffff {
                Some(be16(k as u16) + be16(v.len() as u16) + v)
            } else {
                None
            },
            None => None,
        },
        None => None,
    }
}

/// Parameter words on the wire; none where one is malformed or out of order.
pub open spec fn params_octets(words: Seq<Seq<char>>) -> Option<Seq<u8>>
    decreases words.len(),
{
    if words.len() == 0 {
        Some(Seq::empty())
    } else {
        let ordered = words.len() == 1 || (param_key(words[words.len() - 2]) is Some && param_key(
            words.last(),
        ) is Some && param_key(words[words.len() - 2])->0 < param_key(words.last())->0);
        match (params_octets(words.drop_last()), param_octets(words.last())) {
            (Some(a), Some(b)) => if ordered {
                Some(a + b)
            } else {
                None
            },
            _ => None,
        }
    }
}

/// The RDATA that a stored service binding denotes.
pub open spec fn service_binding(value: Seq<char>) -> Option<Seq<u8>> {
    let fields = words(value);
    if fields.len() < 2 {
        None
    } else {
        match (
            parse_unsigned(fields[0], 0xffff),
            canonical_form(fields[1]),
            params_octets(fields.subrange(2, fields.len() as int)),
        ) {
            (Some(p), Some(target), Some(params)) => Some(be16(p as u16) + target + params),
            _ => None,
        }
    }
}

fn parse_key(name: &[char]) -> (r: Option<u16>)
    ensures
        match r {
            Some(k) => key_number(name@) == Some(k as nat),
            None => key_number(name@) is None,
        },
{
    let text = string_of(name);
    let s = text.as_str();
    if eq_text(s, "mandatory") {
        return Some(0);
    }
    if eq_text(s, "alpn") {
        return Some(1);
    }
    if eq_text(s, "no-default-alpn") {
        return Some(2);
    }
    if eq_text(s, "port") {
        return Some(3);
    }
    if eq_text(s, "ipv4hint") {
        return Some(4);
    }
    if eq_text(s, "ech") {
        return Some(5);
    }
    if eq_text(s, "ipv6hint") {
        return Some(6);
    }
    if name.len() <= 3 || name[0] != 'k' || name[1] != 'e' || name[2] != 'y' || (name.len() > 4
        && name[3] == '0') {
        proof {
            if name@.len() > 3 && name@.subrange(0, 3) == seq!['k', 'e', 'y'] {
                assert(name@.subrange(0, 3)[0] == 'k');
                assert(name@.subrange(0, 3)[1] == 'e');
                assert(name@.subrange(0, 3)[2] == 'y');
            }
        }
        return None;
    }
    assert(name@.subrange(0, 3) =~= seq!['k', 'e', 'y']);
    match parse_digits_max(slice_subrange(name, 3, name.len()), 0xffff) {
        Some(k) => Some(k as u16),
        None => None,
    }
}

fn push_item(out: &mut Vec<u8>, key: u16, item: &[char]) -> (ok: bool)
    ensures
        ok == (list_item(key as nat, item@) is Some),
        ok ==> final(out)@ == old(out)@ + list_item(key as nat, item@)->0,
{
    if key == 0 {
        match parse_key(item) {
            Some(k) => {
                push_be16(out, k);
                true
            },
            None => false,
        }
    } else if key == 1 {
        let text = string_of(item);
        let octets = text.as_str().as_bytes();
        if octets.len() == 0 || octets.len() > 255 {
            return false;
        }
        out.push(octets.len() as u8);
        out.extend_from_slice(octets);
        assert(out@ =~= old(out)@ + list_item(key as nat, item@)->0);
        true
    } else if key == 4 {
        match parse_ipv4(item) {
            Some(a) => {
                push_be32(out, a);
                true
            },
            None => false,
        }
    } else {
        let text = string_of(item);
        match ipv6_from_str(text.as_str()) {
            Some(a) => {
                push_be128(out, a);
                true
            },
            None => false,
        }
    }
}

proof fn lemma_list_items_prefix(key: nat, items: Seq<Seq<char>>, n: int)
    requires
        0 <= n <= items.len(),
        list_items(key, items.subrange(0, n)) is None,
    ensures
        list_items(key, items) is None,
    decreases items.len() - n,
{
    if n == items.len() {
        assert(items.subrange(0, n) =~= items);
    } else {
        let p = items.subrange(0, n + 1);
        assert(p.drop_last() =~= items.subrange(0, n));
        lemma_list_items_prefix(key, items, n + 1);
    }
}

fn encode_list(key: u16, text: &[char]) -> (r: Option<Vec<u8>>)
    ensures
        match r {
            Some(v) => list_items(key as nat, split(text@, ',')) == Some(v@),
            None => list_items(key as nat, split(text@, ',')) is None,
        },
{
    let items = split_chars(text, ',');
    let ghost all = texts(items@);
    let mut out: Vec<u8> = Vec::new();
    let mut i: usize = 0;
    assert(all.subrange(0, 0) =~= Seq::empty());
    while i < items.len()
        invariant
            i <= items.len(),
            all == texts(items@),
            all == split(text@, ','),
            list_items(key as nat, all.subrange(0, i as int)) == Some(out@),
        decreases items.len() - i,
    {
        proof {
            let p = all.subrange(0, i + 1);
            assert(p.drop_last() =~= all.subrange(0, i as int));
            assert(p.last() == items@[i as int]@);
        }
        if !push_item(&mut out, key, items[i].as_slice()) {
            proof {
                lemma_list_items_prefix(key as nat, all, i + 1);
            }
            return None;
        }
        i = i + 1;
    }
    assert(all.subrange(0, i as int) =~= all);
    Some(out)
}

fn encode_value(key: u16, value: Option<&[char]>) -> (r: Option<Vec<u8>>)
    ensures
        ({
            let v = match value {
                Some(t) => Some(t@),
                None => None,
            };
            match r {
                Some(o) => param_value(key as nat, v) == Some(o@),
                None => param_value(key as nat, v) is None,
            }
        }),
{
    match value {
        None => {
            if key == 2 || key > 6 {
                let out: Vec<u8> = Vec::new();
                assert(out@ =~= Seq::empty());
                Some(out)
            } else {
                None
            }
        },
        Some(text) => {
            if key == 2 {
                None
            } else if key == 3 {
                match parse_unsigned_max(text, 0xffff) {
                    Some(p) => {
                        let mut out: Vec<u8> = Vec::new();
                        push_be16(&mut out, p as u16);
                        assert(out@ =~= be16(p as u16));
                        Some(out)
                    },
                    None => None,
                }
            } else if key == 5 {
                let s = string_of(text);
                base64_decode(s.as_str())
            } else if key > 6 {
                let s = string_of(text);
                Some(vstd::slice::slice_to_vec(s.as_str().as_bytes()))
            } else {
                encode_list(key, text)
            }
        },
    }
}

/// Encodes one parameter word and gives its key.
fn encode_param(word: &[char]) -> (r: Option<(u16, Vec<u8>)>)
    ensures
        match r {
            Some((k, v)) => param_octets(word@) == Some(v@) && param_key(word@) == Some(k as nat),
            None => param_octets(word@) is None,
        },
{
    let at: usize = find_char(word, '=');
    let key = match parse_key(slice_subrange(word, 0, at)) {
        Some(k) => k,
        None => {
            return None;
        },
    };
    let value = if at < word.len() {
        encode_value(key, Some(slice_subrange(word, at + 1, word.len())))
    } else {
        encode_value(key, None)
    };
    match value {
        Some(v) => {
            if v.len() > 0xffff {
                return None;
            }
            let mut out: Vec<u8> = Vec::new();
            push_be16(&mut out, key);
            push_be16(&mut out, v.len() as u16);
            out.extend_from_slice(v.as_slice());
            assert(out@ =~= be16(key) + be16(v@.len() as u16) + v@);
            Some((key, out))
        },
        None => None,
    }
}

proof fn lemma_params_prefix(words: Seq<Seq<char>>, n: int)
    requires
        0 <= n <= words.len(),
        params_octets(words.subrange(0, n)) is None,
    ensures
        params_octets(words) is None,
    decreases words.len() - n,
{
    if n == words.len() {
        assert(words.subrange(0, n) =~= words);
    } else {
        let p = words.subrange(0, n + 1);
        assert(p.drop_last() =~= words.subrange(0, n));
        lemma_params_prefix(words, n + 1);
    }
}

/// Encodes a stored service binding as RDATA.
pub fn canonical_rdata(value: &str) -> (r: Option<Vec<u8>>)
    ensures
        match r {
            Some(v) => service_binding(value@) == Some(v@),
            None => service_binding(value@) is None,
        },
{
    let chars = chars_of(value);
    let fields = split_words(chars.as_slice());
    let ghost ws = texts(fields@);
    if fields.len() < 2 {
        return None;
    }
    assert(ws[0] == fields@[0]@ && ws[1] == fields@[1]@);
    let priority = match parse_unsigned_max(fields[0].as_slice(), 0xffff) {
        Some(p) => p as u16,
        None => {
            return None;
        },
    };
    let target_text = string_of(fields[1].as_slice());
    let target = match canonical_name(target_text.as_str()) {
        Some(t) => t,
        None => {
            return None;
        },
    };
    let ghost params = ws.subrange(2, ws.len() as int);
    let mut tail: Vec<u8> = Vec::new();
    let mut last: u16 = 0;
    let mut i: usize = 2;
    assert(params.subrange(0, 0) =~= Seq::empty());
    while i < fields.len()
        invariant
            2 <= i <= fields.len(),
            ws == texts(fields@),
            ws == words(value@),
            params == ws.subrange(2, ws.len() as int),
            params_octets(params.subrange(0, i - 2)) == Some(tail@),
            i > 2 ==> param_key(params[i - 3]) == Some(last as nat),
        decreases fields.len() - i,
    {
        let ghost p = params.subrange(0, i - 1);
        proof {
            assert(p.drop_last() =~= params.subrange(0, i - 2));
            assert(p.last() == fields@[i as int]@);
            if i > 2 {
                assert(p[p.len() - 2] == params[i - 3]);
            }
        }
        match encode_param(fields[i].as_slice()) {
            Some((key, octets)) => {
                if i > 2 && key <= last {
                    proof {
                        assert(params_octets(p) is None);
                        lemma_params_prefix(params, i - 1);
                    }
                    return None;
                }
                last = key;
                tail.extend_from_slice(octets.as_slice());
                assert(tail@ =~= params_octets(params.subrange(0, i - 2))->0 + octets@);
            },
            None => {
                proof {
                    lemma_params_prefix(params, i - 1);
                }
                return None;
            },
        }
        i = i + 1;
    }
    assert(params.subrange(0, i - 2) =~= params);
    let mut out: Vec<u8> = Vec::new();
    push_be16(&mut out, priority);
    out.extend_from_slice(target.as_slice());
    out.extend_from_slice(tail.as_slice());
    assert(out@ =~= be16(priority) + target@ + tail@);
    Some(out)
}

} // verus!
