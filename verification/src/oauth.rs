//! Codex OAuth (PKCE) login: the authorization URL, the callback that the
//! browser is redirected to, the token request and the credential built
//! from its answer. The network exchange and the localhost listener are the
//! app's; everything they decide on is here.

use vstd::prelude::*;
use crate::codec::{spec_utf8_lossy, utf8_lossy};
use crate::error::AppError;
use crate::json::{get_opt, json_get, opt_get, opt_str, str_opt};
use crate::text::{
    chars_eq_str, chars_of, ends_with_str, find_char, has_suffix, index_of, lemma_index_of,
    push_chars, push_str, split_char, split_chars, string_from_chars, sub_chars, views,
};

verus! {

/// Bytes kept as they are by the percent-encoder.
pub open spec fn is_unreserved(b: u8) -> bool {
    ||| (65 <= b && b <= 90)
    ||| (97 <= b && b <= 122)
    ||| (48 <= b && b <= 57)
    ||| b == 45
    ||| b == 95
    ||| b == 46
    ||| b == 126
}

/// Upper-case hexadecimal digit of `n < 16`.
pub open spec fn hex_upper(n: int) -> char {
    if n < 10 { ((n + 48) as u8) as char } else { ((n + 55) as u8) as char }
}

/// The percent-encoding of one byte: the byte itself when unreserved, else
/// `%XY` with upper-case hex digits.
pub open spec fn encode_byte(b: u8) -> Seq<char> {
    if is_unreserved(b) {
        seq![b as char]
    } else {
        seq!['%', hex_upper(b as int / 16), hex_upper(b as int % 16)]
    }
}

/// The percent-encoding of a byte string.
pub open spec fn encode_bytes(bs: Seq<u8>) -> Seq<char>
    decreases bs.len(),
{
    if bs.len() == 0 {
        Seq::empty()
    } else {
        encode_byte(bs[0]) + encode_bytes(bs.drop_first())
    }
}

/// Percent-encoding of the UTF-8 bytes of a text.
pub open spec fn spec_url_encode(s: Seq<char>) -> Seq<char> {
    encode_bytes(vstd::utf8::encode_utf8(s))
}

/// Value of a hexadecimal digit byte.
pub open spec fn spec_hex_digit(b: u8) -> Option<u8> {
    if 48 <= b && b <= 57 {
        Some((b - 48) as u8)
    } else if 97 <= b && b <= 102 {
        Some((b - 87) as u8)
    } else if 65 <= b && b <= 70 {
        Some((b - 55) as u8)
    } else {
        None
    }
}

/// Form-decoding of a byte string: `+` is a space; `%` followed by two hex
/// digits (with at least one more byte after the `%` than those two need
/// not hold: the two digits must be present) is the byte they spell; any
/// other byte stands for itself.
pub open spec fn decode_bytes(bs: Seq<u8>) -> Seq<u8>
    decreases bs.len(),
{
    if bs.len() == 0 {
        Seq::empty()
    } else if bs[0] == 43 {
        seq![32u8] + decode_bytes(bs.drop_first())
    } else if bs[0] == 37 && 2 < bs.len() && spec_hex_digit(bs[1]) is Some && spec_hex_digit(
        bs[2],
    ) is Some {
        seq![(spec_hex_digit(bs[1])->0 * 16 + spec_hex_digit(bs[2])->0) as u8] + decode_bytes(
            bs.skip(3),
        )
    } else {
        seq![bs[0]] + decode_bytes(bs.drop_first())
    }
}

/// Form-decoding of a text, read back as UTF-8: decoded as it is when the
/// bytes are valid UTF-8, else with invalid sequences replaced.
pub open spec fn spec_url_decode(s: Seq<char>) -> Seq<char> {
    let b = decode_bytes(vstd::utf8::encode_utf8(s));
    if vstd::utf8::valid_utf8(b) {
        vstd::utf8::decode_utf8(b)
    } else {
        spec_utf8_lossy(b)
    }
}

fn hex_upper_exec(n: u8) -> (r: char)
    requires
        n < 16,
    ensures
        r == hex_upper(n as int),
{
    if n < 10 { (n + 48) as char } else { (n + 55) as char }
}

/// Minimal percent-encoder: every byte other than ASCII letters, digits and
/// `-_.~` becomes `%XY`.
pub fn url_encode(s: &str) -> (r: String)
    ensures
        r@ == spec_url_encode(s@),
{
    let bytes = s.as_bytes();
    let mut out: Vec<char> = Vec::new();
    let mut i: usize = 0;
    assert(bytes@.skip(0) =~= bytes@);
    while i < bytes.len()
        invariant
            i <= bytes@.len(),
            bytes@ == vstd::utf8::encode_utf8(s@),
            encode_bytes(bytes@) == out@ + encode_bytes(bytes@.skip(i as int)),
        decreases bytes@.len() - i,
    {
        let b = bytes[i];
        let ghost before = out@;
        if (65 <= b && b <= 90) || (97 <= b && b <= 122) || (48 <= b && b <= 57) || b == 45
            || b == 95 || b == 46 || b == 126 {
            out.push(b as char);
        } else {
            out.push('%');
            out.push(hex_upper_exec(b / 16));
            out.push(hex_upper_exec(b % 16));
        }
        assert(out@ =~= before + encode_byte(b));
        assert(bytes@.skip(i as int).drop_first() =~= bytes@.skip(i + 1));
        i = i + 1;
    }
    string_from_chars(&out)
}

/// Value of a hexadecimal digit byte, either case.
pub fn hex_digit(b: u8) -> (r: Option<u8>)
    ensures
        r == spec_hex_digit(b),
{
    if 48 <= b && b <= 57 {
        Some(b - 48)
    } else if 97 <= b && b <= 102 {
        Some(b - 87)
    } else if 65 <= b && b <= 70 {
        Some(b - 55)
    } else {
        None
    }
}

/// Form-decoding: `+` to space, `%XY` to its byte, read back as UTF-8.
pub fn url_decode(s: &str) -> (r: String)
    ensures
        r@ == spec_url_decode(s@),
        vstd::utf8::valid_utf8(decode_bytes(vstd::utf8::encode_utf8(s@))) ==> r@
            == vstd::utf8::decode_utf8(decode_bytes(vstd::utf8::encode_utf8(s@))),
{
    let bytes = s.as_bytes();
    let mut out: Vec<u8> = Vec::new();
    let mut i: usize = 0;
    assert(bytes@.skip(0) =~= bytes@);
    while i < bytes.len()
        invariant
            i <= bytes@.len(),
            bytes@ == vstd::utf8::encode_utf8(s@),
            decode_bytes(bytes@) == out@ + decode_bytes(bytes@.skip(i as int)),
        decreases bytes@.len() - i,
    {
        let ghost rest = bytes@.skip(i as int);
        let ghost before = out@;
        let b = bytes[i];
        if b == 43 {
            out.push(32);
            assert(rest.drop_first() =~= bytes@.skip(i + 1));
            i = i + 1;
        } else if b == 37 && bytes.len() - i > 2 && hex_digit(bytes[i + 1]).is_some() && hex_digit(
            bytes[i + 2],
        ).is_some() {
            let hi = hex_digit(bytes[i + 1]).unwrap();
            let lo = hex_digit(bytes[i + 2]).unwrap();
            out.push(hi * 16 + lo);
            assert(rest[1] == bytes@[i + 1] && rest[2] == bytes@[i + 2]);
            assert(rest.skip(3) =~= bytes@.skip(i + 3));
            i = i + 3;
        } else {
            out.push(b);
            proof {
                if b == 37 && i + 2 < bytes@.len() {
                    assert(rest[1] == bytes@[i + 1] && rest[2] == bytes@[i + 2]);
                }
            }
            assert(rest.drop_first() =~= bytes@.skip(i + 1));
            i = i + 1;
        }
        assert(out@ =~= before + (out@.skip(before.len() as int)));
    }
    assert(out@ =~= decode_bytes(bytes@));
    utf8_lossy(out.as_slice())
}

/// The bytes of ASCII characters.
pub open spec fn ascii_bytes(cs: Seq<char>) -> Seq<u8> {
    cs.map_values(|c: char| c as u8)
}

proof fn lemma_hex_round_trip(b: u8)
    ensures
        spec_hex_digit(hex_upper(b as int / 16) as u8) == Some((b as int / 16) as u8),
        spec_hex_digit(hex_upper(b as int % 16) as u8) == Some((b as int % 16) as u8),
        ((b as int / 16) * 16 + b as int % 16) == b as int,
        (hex_upper(b as int / 16) as u32) < 128,
        (hex_upper(b as int % 16) as u32) < 128,
{
}

proof fn lemma_encode_ascii(bs: Seq<u8>)
    ensures
        vstd::utf8::is_ascii_chars(encode_bytes(bs)),
        decode_bytes(ascii_bytes(encode_bytes(bs))) == bs,
    decreases bs.len(),
{
    if bs.len() > 0 {
        let b = bs[0];
        let head = encode_byte(b);
        let tail = encode_bytes(bs.drop_first());
        lemma_encode_ascii(bs.drop_first());
        lemma_hex_round_trip(b);
        assert(encode_bytes(bs) == head + tail);
        let all = ascii_bytes(head + tail);
        assert(all =~= ascii_bytes(head) + ascii_bytes(tail));
        if is_unreserved(b) {
            assert(all[0] == b);
            assert(all.drop_first() =~= ascii_bytes(tail));
        } else {
            assert(all[0] == 37);
            assert(all.skip(3) =~= ascii_bytes(tail));
        }
        assert forall|i: int| 0 <= i < (head + tail).len() implies '\0' <= #[trigger] (head
            + tail)[i] <= '\u{7f}' by {
            if i >= head.len() {
                assert((head + tail)[i] == tail[i - head.len()]);
            }
        }
    }
}

/// Form-decoding undoes percent-encoding: the bytes that `url_decode`
/// recovers from `url_encode(s)` are exactly the UTF-8 bytes of `s`, which
/// decode back to `s` (so `url_decode(url_encode(s)) == s`).
pub proof fn lemma_url_round_trip(s: Seq<char>)
    ensures
        decode_bytes(vstd::utf8::encode_utf8(spec_url_encode(s))) == vstd::utf8::encode_utf8(s),
        vstd::utf8::valid_utf8(decode_bytes(vstd::utf8::encode_utf8(spec_url_encode(s)))),
        vstd::utf8::decode_utf8(decode_bytes(vstd::utf8::encode_utf8(spec_url_encode(s)))) == s,
{
    let bs = vstd::utf8::encode_utf8(s);
    let e = encode_bytes(bs);
    lemma_encode_ascii(bs);
    vstd::utf8::is_ascii_chars_encode_utf8(e);
    assert(vstd::utf8::encode_utf8(e) =~= ascii_bytes(e));
    vstd::utf8::encode_utf8_valid_utf8(s);
    vstd::utf8::encode_utf8_decode_utf8(s);
}

} // verus!

verus! {

/// `p` occurs in `s` at index `k`.
pub open spec fn match_at(s: Seq<char>, p: Seq<char>, k: int) -> bool {
    0 <= k && k + p.len() <= s.len() && s.subrange(k, k + p.len()) == p
}

/// First index at which `p` occurs in `s`, or -1.
pub open spec fn find_str(s: Seq<char>, p: Seq<char>) -> int
    decreases s.len(),
{
    if match_at(s, p, 0) {
        0
    } else if s.len() == 0 {
        -1
    } else {
        let r = find_str(s.drop_first(), p);
        if r < 0 { -1 } else { r + 1 }
    }
}

proof fn lemma_match_shift(s: Seq<char>, p: Seq<char>, k: int)
    requires
        s.len() > 0,
        k >= 0,
    ensures
        match_at(s.drop_first(), p, k) == match_at(s, p, k + 1),
{
    if k + 1 + p.len() <= s.len() {
        assert(s.drop_first().subrange(k, k + p.len()) =~= s.subrange(k + 1, k + 1 + p.len()));
    }
}

proof fn lemma_find_str(s: Seq<char>, p: Seq<char>, j: int)
    requires
        0 <= j <= s.len(),
        forall|k: int| 0 <= k < j ==> !#[trigger] match_at(s, p, k),
        j < s.len() ==> match_at(s, p, j),
        j == s.len() ==> !match_at(s, p, j),
    ensures
        find_str(s, p) == (if j < s.len() { j } else { -1 }),
    decreases j,
{
    if j > 0 {
        assert(!match_at(s, p, 0));
        let t = s.drop_first();
        assert forall|k: int| 0 <= k < j - 1 implies !#[trigger] match_at(t, p, k) by {
            lemma_match_shift(s, p, k);
        }
        lemma_match_shift(s, p, j - 1);
        lemma_find_str(t, p, j - 1);
    }
}

/// The path and the query of a URL: after `://`, from the first `/` up to
/// the first `?`, and the rest after that `?`. `None` without a scheme
/// separator, a path or a query.
pub open spec fn spec_split_path_query(url: Seq<char>) -> Option<(Seq<char>, Seq<char>)> {
    let e = find_str(url, "://"@);
    if e < 0 {
        None
    } else {
        let after = url.skip(e + 3);
        let slash = index_of(after, '/');
        if slash < 0 {
            None
        } else {
            let pq = after.skip(slash);
            let q = index_of(pq, '?');
            if q < 0 {
                None
            } else {
                Some((pq.take(q), pq.skip(q + 1)))
            }
        }
    }
}

fn find_scheme_sep(v: &Vec<char>) -> (r: Option<usize>)
    ensures
        r matches Some(i) ==> find_str(v@, "://"@) == i && i + 3 <= v@.len(),
        r is None <==> find_str(v@, "://"@) < 0,
{
    proof { reveal_strlit("://"); }
    let ghost sep = "://"@;
    assert(sep =~= seq![':', '/', '/']);
    if v.len() < 3 {
        proof {
            assert forall|k: int| 0 <= k <= v@.len() implies !#[trigger] match_at(v@, sep, k) by {}
            lemma_find_str(v@, sep, v@.len() as int);
        }
        return None;
    }
    let mut i: usize = 0;
    while i <= v.len() - 3
        invariant
            v.len() >= 3,
            sep == seq![':', '/', '/'],
            sep == "://"@,
            i <= v.len() - 2,
            forall|k: int| 0 <= k < i ==> !#[trigger] match_at(v@, sep, k),
        decreases v.len() - i,
    {
        if v[i] == ':' && v[i + 1] == '/' && v[i + 2] == '/' {
            assert(v@.subrange(i as int, i + 3) =~= sep);
            proof { lemma_find_str(v@, sep, i as int); }
            return Some(i);
        }
        assert(!match_at(v@, sep, i as int)) by {
            if match_at(v@, sep, i as int) {
                assert(v@.subrange(i as int, i + 3)[0] == v@[i as int]);
                assert(v@.subrange(i as int, i + 3)[1] == v@[i + 1]);
                assert(v@.subrange(i as int, i + 3)[2] == v@[i + 2]);
            }
        }
        i = i + 1;
    }
    proof {
        assert forall|k: int| 0 <= k <= v@.len() implies !#[trigger] match_at(v@, sep, k) by {
            if k >= i { assert(k + 3 > v@.len()); }
        }
        lemma_find_str(v@, sep, v@.len() as int);
    }
    None
}

/// Splits a callback URL into its path and its query string.
pub fn split_path_query(url: &str) -> (r: Option<(String, String)>)
    ensures
        r matches Some(pq) ==> spec_split_path_query(url@) == Some((pq.0@, pq.1@)),
        r is None <==> spec_split_path_query(url@) is None,
{
    let v = chars_of(url);
    let found = find_scheme_sep(&v);
    if found.is_none() {
        return None;
    }
    let e = found.unwrap();
    let n = v.len();
    assert(e + 3 <= n);
    let after = sub_chars(&v, e + 3, n);
    assert(after@ =~= url@.skip(e + 3));
    let slash = find_char(&after, '/', 0);
    proof {
        assert forall|k: int| 0 <= k < slash implies after@[k] != '/' by {}
        lemma_index_of(after@, '/', slash as int);
    }
    if slash == after.len() {
        return None;
    }
    let pq = sub_chars(&after, slash, after.len());
    assert(pq@ =~= after@.skip(slash as int));
    let q = find_char(&pq, '?', 0);
    proof {
        assert forall|k: int| 0 <= k < q implies pq@[k] != '?' by {}
        lemma_index_of(pq@, '?', q as int);
    }
    if q == pq.len() {
        return None;
    }
    let path = sub_chars(&pq, 0, q);
    let query = sub_chars(&pq, q + 1, pq.len());
    assert(path@ =~= pq@.take(q as int));
    assert(query@ =~= pq@.skip(q + 1));
    Some((string_from_chars(&path), string_from_chars(&query)))
}

/// One `key=value` form pair, split at its first `=` (a pair without `=`
/// has an empty value), both halves form-decoded.
pub open spec fn form_pair(piece: Seq<char>) -> (Seq<char>, Seq<char>) {
    let i = index_of(piece, '=');
    if i < 0 {
        (spec_url_decode(piece), spec_url_decode(Seq::empty()))
    } else {
        (spec_url_decode(piece.take(i)), spec_url_decode(piece.skip(i + 1)))
    }
}

/// The decoded pairs of `&`-separated pieces, skipping empty pieces.
pub open spec fn form_pairs(pieces: Seq<Seq<char>>) -> Seq<(Seq<char>, Seq<char>)>
    decreases pieces.len(),
{
    if pieces.len() == 0 {
        Seq::empty()
    } else {
        form_pairs(pieces.drop_last()) + if pieces.last().len() == 0 {
            Seq::empty()
        } else {
            seq![form_pair(pieces.last())]
        }
    }
}

/// The decoded pairs of a query string, in order.
pub open spec fn spec_parse_form(query: Seq<char>) -> Seq<(Seq<char>, Seq<char>)> {
    form_pairs(split_char(query, '&'))
}

/// The views of decoded pairs.
pub open spec fn pair_views(v: Seq<(String, String)>) -> Seq<(Seq<char>, Seq<char>)> {
    v.map_values(|p: (String, String)| (p.0@, p.1@))
}

/// Decodes the pairs of a `application/x-www-form-urlencoded` query string,
/// in order of appearance; lookups take the last value of a key.
pub fn parse_form_encoded(query: &str) -> (r: Vec<(String, String)>)
    ensures
        pair_views(r@) == spec_parse_form(query@),
{
    let v = chars_of(query);
    let pieces = split_chars(&v, '&');
    let mut out: Vec<(String, String)> = Vec::new();
    let mut i: usize = 0;
    while i < pieces.len()
        invariant
            i <= pieces.len(),
            views(pieces@) == split_char(query@, '&'),
            pair_views(out@) == form_pairs(views(pieces@).take(i as int)),
        decreases pieces.len() - i,
    {
        let piece = &pieces[i];
        let ghost before = out@;
        assert(views(pieces@).take(i + 1).drop_last() =~= views(pieces@).take(i as int));
        assert(views(pieces@).take(i + 1).last() == piece@);
        if piece.len() > 0 {
            let eq = find_char(piece, '=', 0);
            proof {
                assert forall|k: int| 0 <= k < eq implies piece@[k] != '=' by {}
                lemma_index_of(piece@, '=', eq as int);
            }
            let (k, val) = if eq == piece.len() {
                (string_from_chars(piece), string_from_chars(&Vec::new()))
            } else {
                (string_from_chars(&sub_chars(piece, 0, eq)), string_from_chars(&sub_chars(piece, eq + 1, piece.len())))
            };
            let key = url_decode(k.as_str());
            let value = url_decode(val.as_str());
            proof {
                if eq < piece.len() {
                    assert(piece@.take(eq as int) =~= piece@.subrange(0, eq as int));
                    assert(piece@.skip(eq + 1) =~= piece@.subrange(eq + 1, piece@.len() as int));
                }
            }
            out.push((key, value));
            assert(pair_views(out@) =~= pair_views(before) + seq![form_pair(piece@)]);
        } else {
            assert(pair_views(out@) =~= pair_views(before) + Seq::empty());
        }
        i = i + 1;
    }
    assert(views(pieces@).take(pieces@.len() as int) =~= views(pieces@));
    out
}

/// The value of the last pair with key `key`.
pub open spec fn form_lookup(pairs: Seq<(Seq<char>, Seq<char>)>, key: Seq<char>) -> Option<Seq<char>>
    decreases pairs.len(),
{
    if pairs.len() == 0 {
        None
    } else if pairs.last().0 == key {
        Some(pairs.last().1)
    } else {
        form_lookup(pairs.drop_last(), key)
    }
}

/// The value of the last pair with key `key`, as a map built from the pairs
/// in order would hold it.
pub fn form_get(pairs: &Vec<(String, String)>, key: &str) -> (r: Option<String>)
    ensures
        r matches Some(v) ==> form_lookup(pair_views(pairs@), key@) == Some(v@),
        r is None <==> form_lookup(pair_views(pairs@), key@) is None,
{
    let k = chars_of(key);
    let mut i: usize = pairs.len();
    assert(pair_views(pairs@).take(i as int) =~= pair_views(pairs@));
    while i > 0
        invariant
            i <= pairs.len(),
            k@ == key@,
            form_lookup(pair_views(pairs@), key@) == form_lookup(pair_views(pairs@).take(i as int), key@),
        decreases i,
    {
        let name = chars_of(pairs[i - 1].0.as_str());
        assert(pair_views(pairs@).take(i as int).last() == (pairs@[i - 1].0@, pairs@[i - 1].1@));
        if crate::text::chars_eq(&name, &k) {
            return Some(pairs[i - 1].1.clone());
        }
        assert(pair_views(pairs@).take(i as int).drop_last() =~= pair_views(pairs@).take(i - 1));
        i = i - 1;
    }
    None
}

/// The outcome of reading an OAuth callback URL: the authorization code, or
/// the text of the `auth` error.
pub open spec fn spec_authorization_code(url: Seq<char>, expected_state: Seq<char>) -> Result<Seq<char>, Seq<char>> {
    match spec_split_path_query(url) {
        None => Err("malformed callback URL"@),
        Some((path, query)) => if !has_suffix(path, "/auth/callback"@) {
            Err("unexpected callback path: "@ + path)
        } else {
            let params = spec_parse_form(query);
            match form_lookup(params, "error"@) {
                Some(err) => Err("OAuth error: "@ + err),
                None => match form_lookup(params, "state"@) {
                    None => Err("missing state"@),
                    Some(state) => if state != expected_state {
                        Err("OAuth state mismatch"@)
                    } else {
                        match form_lookup(params, "code"@) {
                            Some(code) => if code.len() > 0 {
                                Ok(code)
                            } else {
                                Err("missing code"@)
                            },
                            None => Err("missing code"@),
                        }
                    },
                },
            }
        },
    }
}

fn auth_err(prefix: &str, detail: &String) -> (r: AppError)
    ensures
        r matches AppError::Auth(m) && m@ == prefix@ + detail@,
{
    let mut v = chars_of(prefix);
    push_str(&mut v, detail.as_str());
    AppError::Auth(string_from_chars(&v))
}

fn auth_msg(msg: &str) -> (r: AppError)
    ensures
        r matches AppError::Auth(m) && m@ == msg@,
{
    AppError::Auth(msg.to_owned())
}

} // verus!

verus! {

/// Extracts the authorization code from an OAuth callback URL after
/// checking its path, any `error` parameter and the CSRF `state`.
pub open spec fn auth_result_is(r: Result<String, AppError>, spec: Result<Seq<char>, Seq<char>>) -> bool {
    match r {
        Ok(c) => spec == Ok::<Seq<char>, Seq<char>>(c@),
        Err(e) => e matches AppError::Auth(m) && spec == Err::<Seq<char>, Seq<char>>(m@),
    }
}

pub struct OAuthLogin;

impl OAuthLogin {
    /// Extract the `code` query param from a callback URL after verifying
    /// `state`. Returns the authorization code on success.
    pub fn authorization_code(callback_url: &str, expected_state: &str) -> (r: Result<String, AppError>)
        ensures
            auth_result_is(r, spec_authorization_code(callback_url@, expected_state@)),
    {
        proof {
            reveal_strlit("malformed callback URL");
        }
        let (path, query) = match split_path_query(callback_url) {
            Some(pq) => pq,
            None => return Err(auth_msg("malformed callback URL")),
        };
        let pv = chars_of(path.as_str());
        if !ends_with_str(&pv, "/auth/callback") {
            return Err(auth_err("unexpected callback path: ", &path));
        }
        let params = parse_form_encoded(query.as_str());
        if let Some(err) = form_get(&params, "error") {
            return Err(auth_err("OAuth error: ", &err));
        }
        let state = match form_get(&params, "state") {
            Some(s) => s,
            None => return Err(auth_msg("missing state")),
        };
        let sv = chars_of(state.as_str());
        if !chars_eq_str(&sv, expected_state) {
            return Err(auth_msg("OAuth state mismatch"));
        }
        match form_get(&params, "code") {
            Some(c) => if c.as_str().is_empty() {
                Err(auth_msg("missing code"))
            } else {
                Ok(c)
            },
            None => Err(auth_msg("missing code")),
        }
    }
}

/// The request target of an HTTP request line, when its method is `GET`:
/// the text between the first and the second space.
pub open spec fn spec_parse_request_target(line: Seq<char>) -> Option<Seq<char>> {
    let i = index_of(line, ' ');
    if i < 0 {
        None
    } else if line.take(i) != "GET"@ {
        None
    } else {
        let rest = line.skip(i + 1);
        let j = index_of(rest, ' ');
        Some(if j < 0 { rest } else { rest.take(j) })
    }
}

/// `GET /path?query HTTP/1.1` to `/path?query`.
pub fn parse_request_target(line: &str) -> (r: Option<String>)
    ensures
        r matches Some(t) ==> spec_parse_request_target(line@) == Some(t@),
        r is None <==> spec_parse_request_target(line@) is None,
{
    let v = chars_of(line);
    let i = find_char(&v, ' ', 0);
    proof {
        assert forall|k: int| 0 <= k < i implies v@[k] != ' ' by {}
        lemma_index_of(line@, ' ', i as int);
    }
    if i == v.len() {
        return None;
    }
    let method = sub_chars(&v, 0, i);
    assert(method@ =~= line@.take(i as int));
    if !chars_eq_str(&method, "GET") {
        return None;
    }
    let j = find_char(&v, ' ', i + 1);
    let ghost rest = line@.skip(i + 1);
    proof {
        assert forall|k: int| 0 <= k < j - (i + 1) implies rest[k] != ' ' by {
            assert(rest[k] == v@[i + 1 + k]);
        }
        if j < v.len() {
            assert(rest[j - (i + 1)] == v@[j as int]);
        }
        lemma_index_of(rest, ' ', j - (i + 1));
    }
    let t = sub_chars(&v, i + 1, j);
    proof {
        if j == v.len() {
            assert(t@ =~= rest);
        } else {
            assert(t@ =~= rest.take(j - (i + 1)));
        }
    }
    Some(string_from_chars(&t))
}

/// The HTML escape of one character.
pub open spec fn escape_char(c: char) -> Seq<char> {
    if c == '&' {
        "&amp;"@
    } else if c == '<' {
        "&lt;"@
    } else if c == '>' {
        "&gt;"@
    } else if c == '"' {
        "&quot;"@
    } else {
        seq![c]
    }
}

/// `&`, `<`, `>` and `"` escaped as HTML entities.
pub open spec fn spec_html_escape(s: Seq<char>) -> Seq<char>
    decreases s.len(),
{
    if s.len() == 0 {
        Seq::empty()
    } else {
        spec_html_escape(s.drop_last()) + escape_char(s.last())
    }
}

/// Escapes text for inclusion in an HTML page.
pub fn html_escape(s: &str) -> (r: String)
    ensures
        r@ == spec_html_escape(s@),
{
    let v = chars_of(s);
    let mut out: Vec<char> = Vec::new();
    let mut i: usize = 0;
    while i < v.len()
        invariant
            i <= v.len(),
            v@ == s@,
            out@ == spec_html_escape(v@.take(i as int)),
        decreases v.len() - i,
    {
        let c = v[i];
        if c == '&' {
            push_str(&mut out, "&amp;");
        } else if c == '<' {
            push_str(&mut out, "&lt;");
        } else if c == '>' {
            push_str(&mut out, "&gt;");
        } else if c == '"' {
            push_str(&mut out, "&quot;");
        } else {
            out.push(c);
        }
        assert(v@.take(i + 1).drop_last() =~= v@.take(i as int));
        i = i + 1;
    }
    assert(v@.take(v@.len() as int) =~= v@);
    string_from_chars(&out)
}

/// The text of an HTTP/1.1 response with a body and `Connection: close`.
pub open spec fn spec_http_response_text(status: u16, reason: Seq<char>, content_type: Seq<char>, body: Seq<char>) -> Seq<char> {
    "HTTP/1.1 "@ + crate::text::decimal(status as nat) + " "@ + reason + "\r\nContent-Type: "@
        + content_type + "\r\nContent-Length: "@ + crate::text::decimal(
        crate::auth::byte_len(body),
    ) + "\r\nConnection: close\r\n\r\n"@ + body
}

/// The bytes of an HTTP/1.1 response; `Content-Length` counts the body's
/// UTF-8 bytes.
pub fn build_http_response(status: u16, reason: &str, content_type: &str, body: &str) -> (r: Vec<u8>)
    ensures
        r@ == vstd::utf8::encode_utf8(spec_http_response_text(status, reason@, content_type@, body@)),
{
    let blen = body.as_bytes().len();
    let mut out = chars_of("HTTP/1.1 ");
    let st = crate::text::fmt_u64(status as u64);
    push_chars(&mut out, &st);
    push_str(&mut out, " ");
    push_str(&mut out, reason);
    push_str(&mut out, "\r\nContent-Type: ");
    push_str(&mut out, content_type);
    push_str(&mut out, "\r\nContent-Length: ");
    let bl = crate::text::fmt_u64(blen as u64);
    push_chars(&mut out, &bl);
    push_str(&mut out, "\r\nConnection: close\r\n\r\n");
    push_str(&mut out, body);
    let text = string_from_chars(&out);
    vstd::slice::slice_to_vec(text.as_str().as_bytes())
}

/// The page shown in the browser after a successful sign-in.
pub const SUCCESS_PAGE_BODY: &'static str = "<!doctype html><html><head><meta charset=\"utf-8\"><title>Codex Runway</title><style>body{font-family:system-ui,Segoe UI,sans-serif;padding:2rem;max-width:32rem;margin:auto;color:#1c1c1e;background:#fafafa}h1{font-size:1.1rem;margin:0 0 .5rem}p{color:#555;line-height:1.5}</style></head><body><h1>Sign-in complete</h1><p>You can close this tab and return to Codex Runway. The window will refresh on its own.</p></body></html>";

/// The `200 OK` response for a captured callback.
pub fn serve_success_page() -> (r: Vec<u8>)
    ensures
        r@ == vstd::utf8::encode_utf8(
            spec_http_response_text(200, "OK"@, "text/html; charset=utf-8"@, SUCCESS_PAGE_BODY@),
        ),
{
    build_http_response(200, "OK", "text/html; charset=utf-8", SUCCESS_PAGE_BODY)
}

/// The body of the page shown when the callback request cannot be read.
pub open spec fn spec_error_page_body(reason: Seq<char>) -> Seq<char> {
    "<!doctype html><body style=\"font-family:system-ui;padding:2rem\"><h2>Sign-in failed</h2><p>"@
        + spec_html_escape(reason) + "</p></body>"@
}

/// The `400 Bad Request` response naming the (escaped) reason.
pub fn serve_error_page(reason: &str) -> (r: Vec<u8>)
    ensures
        r@ == vstd::utf8::encode_utf8(
            spec_http_response_text(
                400,
                "Bad Request"@,
                "text/html; charset=utf-8"@,
                spec_error_page_body(reason@),
            ),
        ),
{
    let mut body = chars_of(
        "<!doctype html><body style=\"font-family:system-ui;padding:2rem\"><h2>Sign-in failed</h2><p>",
    );
    let esc = html_escape(reason);
    push_str(&mut body, esc.as_str());
    push_str(&mut body, "</p></body>");
    let b = string_from_chars(&body);
    build_http_response(400, "Bad Request", "text/html; charset=utf-8", b.as_str())
}

/// The first line of a text, as `str::lines().next()` yields it: up to the
/// first `\n`, without a trailing `\r`; `None` for an empty text.
pub open spec fn first_line(s: Seq<char>) -> Option<Seq<char>> {
    if s.len() == 0 {
        None
    } else {
        let i = index_of(s, '\n');
        let l = if i < 0 { s } else { s.take(i) };
        Some(if l.len() > 0 && l.last() == '\r' { l.drop_last() } else { l })
    }
}

/// The callback URL the browser asked for, from the raw request bytes read
/// off the listener on `port`: `http://localhost:<port><target>`.
pub open spec fn spec_callback_url(request: Seq<u8>, port: u16) -> Option<Seq<char>> {
    match first_line(spec_utf8_lossy(request)) {
        None => None,
        Some(line) => match spec_parse_request_target(line) {
            None => None,
            Some(t) => Some("http://localhost:"@ + crate::text::decimal(port as nat) + t),
        },
    }
}

/// Reads the callback URL out of the first bytes of a browser request.
pub fn callback_url_from_request(request: &[u8], port: u16) -> (r: Option<String>)
    ensures
        r matches Some(u) ==> spec_callback_url(request@, port) == Some(u@),
        r is None <==> spec_callback_url(request@, port) is None,
{
    let text = utf8_lossy(request);
    let v = chars_of(text.as_str());
    if v.len() == 0 {
        return None;
    }
    let i = find_char(&v, '\n', 0);
    proof {
        assert forall|k: int| 0 <= k < i implies v@[k] != '\n' by {}
        lemma_index_of(v@, '\n', i as int);
    }
    let mut line = sub_chars(&v, 0, i);
    proof {
        if i == v.len() { assert(line@ =~= v@); } else { assert(line@ =~= v@.take(i as int)); }
    }
    if line.len() > 0 && line[line.len() - 1] == '\r' {
        line.pop();
    }
    let ls = string_from_chars(&line);
    match parse_request_target(ls.as_str()) {
        None => None,
        Some(t) => {
            let mut u = chars_of("http://localhost:");
            let ps = crate::text::fmt_u64(port as u64);
            push_chars(&mut u, &ps);
            push_str(&mut u, t.as_str());
            Some(string_from_chars(&u))
        },
    }
}

} // verus!

verus! {

/// Public client id used by the official Codex CLI.
pub const CLIENT_ID: &'static str = "app_EMoamEEZ73f0CkXaXp7hrann";
pub const AUTH_ENDPOINT: &'static str = "https://auth.openai.com/oauth/authorize";
pub const TOKEN_ENDPOINT: &'static str = "https://auth.openai.com/oauth/token";
pub const SCOPES: &'static str = "openid profile email offline_access api.connectors.read api.connectors.invoke";
pub const ORIGINATOR: &'static str = "codex_cli_rs";
pub const PREFERRED_PORT: u16 = 1455;

/// A pending PKCE login.
#[derive(Debug, Clone)]
pub struct OAuthSession {
    pub login_id: String,
    pub auth_url: String,
    pub redirect_uri: String,
    pub code_verifier: String,
    pub state: String,
    pub port: u16,
    pub expires_at_unix: i64,
}

/// The PKCE S256 challenge of a verifier: base64url of its SHA-256.
pub open spec fn spec_code_challenge(verifier: Seq<char>) -> Seq<char> {
    crate::codec::spec_b64url_encode(crate::codec::spec_sha256(vstd::utf8::encode_utf8(verifier)))
}

/// The PKCE S256 code challenge of a verifier.
pub fn code_challenge(verifier: &str) -> (r: String)
    ensures
        r@ == spec_code_challenge(verifier@),
        forall|i: int| 0 <= i < r@.len() ==> crate::codec::is_b64url_char(#[trigger] r@[i]),
{
    let digest = crate::codec::sha256(verifier.as_bytes());
    crate::codec::b64url_encode(digest.as_slice())
}

/// `byte_len` fresh random bytes, base64url-encoded without padding.
pub fn random_base64url(byte_len: usize) -> (r: String)
    requires
        byte_len < 0x4000_0000_0000_0000,
    ensures
        exists|bytes: Seq<u8>| bytes.len() == byte_len && r@ == crate::codec::spec_b64url_encode(bytes),
        forall|i: int| 0 <= i < r@.len() ==> crate::codec::is_b64url_char(#[trigger] r@[i]),
{
    let buf = crate::codec::random_bytes(byte_len);
    let r = crate::codec::b64url_encode(buf.as_slice());
    assert(buf@.len() == byte_len && r@ == crate::codec::spec_b64url_encode(buf@));
    r
}

/// `http://localhost:<port>/auth/callback`.
pub open spec fn spec_redirect_uri(port: u16) -> Seq<char> {
    "http://localhost:"@ + crate::text::decimal(port as nat) + "/auth/callback"@
}

/// The authorization URL of a login: the fixed client id, scopes and
/// originator, the redirect URI and scopes percent-encoded, the challenge
/// and state as given.
pub open spec fn spec_auth_url(port: u16, challenge: Seq<char>, state: Seq<char>) -> Seq<char> {
    AUTH_ENDPOINT@ + "?response_type=code&client_id="@ + CLIENT_ID@ + "&redirect_uri="@
        + spec_url_encode(spec_redirect_uri(port)) + "&scope="@ + spec_url_encode(SCOPES@)
        + "&code_challenge="@ + challenge + "&code_challenge_method=S256&state="@ + state
        + "&id_token_add_organizations=true&codex_cli_simplified_flow=true&originator="@
        + ORIGINATOR@
}

fn redirect_uri_for(port: u16) -> (r: String)
    ensures
        r@ == spec_redirect_uri(port),
{
    let mut v = chars_of("http://localhost:");
    let ps = crate::text::fmt_u64(port as u64);
    push_chars(&mut v, &ps);
    push_str(&mut v, "/auth/callback");
    string_from_chars(&v)
}

impl OAuthLogin {
    /// Builds a PKCE session from its random parts and the current Unix
    /// time: the challenge is derived from `code_verifier`; the session
    /// expires `lifetime_secs` after `now` (wrapping on overflow).
    pub fn start_session_with(
        port: u16,
        lifetime_secs: i64,
        now: i64,
        code_verifier: String,
        state: String,
        login_id: String,
    ) -> (r: OAuthSession)
        ensures
            r.login_id == login_id,
            r.code_verifier == code_verifier,
            r.state == state,
            r.port == port,
            r.redirect_uri@ == spec_redirect_uri(port),
            r.auth_url@ == spec_auth_url(port, spec_code_challenge(code_verifier@), state@),
            r.expires_at_unix == now.wrapping_add(lifetime_secs),
    {
        let challenge = code_challenge(code_verifier.as_str());
        let redirect_uri = redirect_uri_for(port);
        let mut u = chars_of(AUTH_ENDPOINT);
        push_str(&mut u, "?response_type=code&client_id=");
        push_str(&mut u, CLIENT_ID);
        push_str(&mut u, "&redirect_uri=");
        let er = url_encode(redirect_uri.as_str());
        push_str(&mut u, er.as_str());
        push_str(&mut u, "&scope=");
        let es = url_encode(SCOPES);
        push_str(&mut u, es.as_str());
        push_str(&mut u, "&code_challenge=");
        push_str(&mut u, challenge.as_str());
        push_str(&mut u, "&code_challenge_method=S256&state=");
        push_str(&mut u, state.as_str());
        push_str(&mut u, "&id_token_add_organizations=true&codex_cli_simplified_flow=true&originator=");
        push_str(&mut u, ORIGINATOR);
        let auth_url = string_from_chars(&u);
        OAuthSession {
            login_id,
            auth_url,
            redirect_uri,
            code_verifier,
            state,
            port,
            expires_at_unix: now.wrapping_add(lifetime_secs),
        }
    }

    /// Build a fresh PKCE session: a 32-byte verifier, a 16-byte state and an
    /// 8-byte login id, all random and base64url-encoded. The caller starts
    /// the callback server and exchanges the code.
    pub fn start_session(port: u16, lifetime_secs: i64) -> (r: Result<OAuthSession, AppError>)
        ensures
            r matches Ok(s) && s.port == port && s.redirect_uri@ == spec_redirect_uri(port)
                && s.auth_url@ == spec_auth_url(port, spec_code_challenge(s.code_verifier@), s.state@)
                && (exists|b: Seq<u8>| b.len() == 32 && s.code_verifier@ == crate::codec::spec_b64url_encode(b))
                && (exists|b: Seq<u8>| b.len() == 16 && s.state@ == crate::codec::spec_b64url_encode(b))
                && (exists|b: Seq<u8>| b.len() == 8 && s.login_id@ == crate::codec::spec_b64url_encode(b)),
    {
        let code_verifier = random_base64url(32);
        let state = random_base64url(16);
        let login_id = random_base64url(8);
        let now = crate::time::now_timestamp().secs;
        Ok(Self::start_session_with(port, lifetime_secs, now, code_verifier, state, login_id))
    }

    /// The form body of the token request that exchanges `code`.
    pub fn token_request_body(session: &OAuthSession, code: &str) -> (r: String)
        ensures
            r@ == "grant_type=authorization_code&client_id="@ + CLIENT_ID@ + "&code="@
                + spec_url_encode(code@) + "&redirect_uri="@ + spec_url_encode(session.redirect_uri@)
                + "&code_verifier="@ + spec_url_encode(session.code_verifier@),
    {
        let mut b = chars_of("grant_type=authorization_code&client_id=");
        push_str(&mut b, CLIENT_ID);
        push_str(&mut b, "&code=");
        let ec = url_encode(code);
        push_str(&mut b, ec.as_str());
        push_str(&mut b, "&redirect_uri=");
        let er = url_encode(session.redirect_uri.as_str());
        push_str(&mut b, er.as_str());
        push_str(&mut b, "&code_verifier=");
        let ev = url_encode(session.code_verifier.as_str());
        push_str(&mut b, ev.as_str());
        string_from_chars(&b)
    }
}

} // verus!

verus! {

/// The fields of the token endpoint's answer that the login reads.
#[derive(Debug)]
pub struct TokenResponse {
    pub id_token: Option<String>,
    pub access_token: String,
    pub refresh_token: Option<String>,
}

/// The ChatGPT plan of a JWT: `https://api.openai.com/auth.chatgpt_plan_type`,
/// else a top-level `chatgpt_plan_type`.
pub open spec fn spec_plan_type(jwt: Seq<char>) -> Option<Seq<char>> {
    match crate::auth::spec_jwt_claims(jwt) {
        None => None,
        Some(c) => match opt_str(opt_get(json_get(c, crate::account::OPENAI_AUTH_CLAIMS@), "chatgpt_plan_type"@)) {
            Some(p) => Some(p),
            None => opt_str(json_get(c, "chatgpt_plan_type"@)),
        },
    }
}

/// Reads the ChatGPT plan out of a JWT, if there is one.
pub fn decode_plan_type(jwt: Option<&str>) -> (r: Option<String>)
    ensures
        jwt matches Some(j) ==> crate::account::opt_view(r) == spec_plan_type(j@),
        jwt is None ==> r is None,
{
    let j = match jwt {
        Some(j) => j,
        None => return None,
    };
    let claims = crate::auth::jwt_claims(j);
    let c = match &claims {
        Some(c) => c,
        None => return None,
    };
    let ns = c.get(crate::account::OPENAI_AUTH_CLAIMS);
    let nested = str_opt(get_opt(ns, "chatgpt_plan_type"));
    match nested {
        Some(p) => Some(p),
        None => str_opt(c.get("chatgpt_plan_type")),
    }
}

/// The credential built from a token response: `chatgpt` mode; its account
/// id the `sub` of the id token, else of the access token; its plan from
/// the id token, else the access token; a missing refresh token stored as
/// empty; `last_refresh` as given. A response with neither a refresh nor an
/// access token is refused.
pub open spec fn is_login_auth(a: crate::auth::CodexAuth, resp: TokenResponse, last_refresh: Seq<char>) -> bool {
    &&& crate::account::opt_view(a.auth_mode) == Some("chatgpt"@)
    &&& a.tokens matches Some(t) && {
        &&& t.access_token == resp.access_token
        &&& t.refresh_token@ == (match resp.refresh_token {
            Some(r) => r@,
            None => Seq::empty(),
        })
        &&& t.id_token == resp.id_token
        &&& crate::account::opt_view(t.account_id) == (match (match resp.id_token {
            Some(j) => crate::account::spec_jwt_str_claim(j@, "sub"@),
            None => None,
        }) {
            Some(s) => Some(s),
            None => crate::account::spec_jwt_str_claim(resp.access_token@, "sub"@),
        })
    }
    &&& crate::account::opt_view(a.last_refresh) == Some(last_refresh)
    &&& crate::account::opt_view(a.plan_type) == (match (match resp.id_token {
        Some(j) => spec_plan_type(j@),
        None => None,
    }) {
        Some(p) => Some(p),
        None => spec_plan_type(resp.access_token@),
    })
    &&& a.auth_file_plan_type is None
    &&& a.openai_api_key is None
}

/// Turns the token endpoint's answer into a credential.
pub fn auth_from_token_response(resp: TokenResponse, last_refresh: String) -> (r: Result<crate::auth::CodexAuth, AppError>)
    ensures
        r is Ok <==> (resp.refresh_token matches Some(x) && x@.len() > 0) || resp.access_token@.len() > 0,
        r matches Ok(a) ==> is_login_auth(a, resp, last_refresh@),
        r matches Err(e) ==> e matches AppError::Auth(m) && m@ == "token endpoint returned no usable credentials"@,
{
    let ghost orig = resp;
    let id_token = resp.id_token;
    let access_token = resp.access_token;
    let sub_id = match &id_token {
        Some(j) => crate::account::subject_id_from_idtoken(Some(j.as_str())),
        None => None,
    };
    let account_id = match sub_id {
        Some(s) => Some(s),
        None => crate::account::subject_id_from_idtoken(Some(access_token.as_str())),
    };
    let plan_id = match &id_token {
        Some(j) => decode_plan_type(Some(j.as_str())),
        None => None,
    };
    let plan_type = match plan_id {
        Some(p) => Some(p),
        None => decode_plan_type(Some(access_token.as_str())),
    };
    let refresh_token = match resp.refresh_token {
        Some(r) => r,
        None => String::new(),
    };
    let usable = !refresh_token.as_str().is_empty() || !access_token.as_str().is_empty();
    let auth = crate::auth::CodexAuth {
        auth_mode: Some("chatgpt".to_owned()),
        tokens: Some(crate::auth::Tokens { access_token, refresh_token, account_id, id_token }),
        last_refresh: Some(last_refresh),
        plan_type,
        auth_file_plan_type: None,
        openai_api_key: None,
    };
    if !usable {
        return Err(auth_msg("token endpoint returned no usable credentials"));
    }
    Ok(auth)
}

/// How the token endpoint's reply is read: a status outside 200..=299 is
/// an `Auth` error `token endpoint <code>: <first 200 characters of the
/// body>`; otherwise the body is the answer.
pub open spec fn spec_token_reply(status: u16, body: Seq<u8>) -> Result<Seq<u8>, Seq<char>> {
    if !(200 <= status && status <= 299) {
        Err("token endpoint "@ + crate::text::decimal(status as nat) + ": "@
            + crate::text::prefix_at_most(spec_utf8_lossy(body), 200))
    } else {
        Ok(body)
    }
}

/// Reads the token endpoint's reply; see `spec_token_reply`.
pub fn token_reply(status: u16, body: Vec<u8>) -> (r: Result<Vec<u8>, AppError>)
    ensures
        match spec_token_reply(status, body@) {
            Ok(b) => r matches Ok(v) && v@ == b,
            Err(msg) => r matches Err(AppError::Auth(m)) && m@ == msg,
        },
{
    proof {
        reveal_strlit("token endpoint ");
        reveal_strlit(": ");
    }
    if !(200 <= status && status <= 299) {
        let head = crate::codec::lossy_head(body.as_slice(), 200);
        let mut m = chars_of("token endpoint ");
        let code = crate::text::fmt_u64(status as u64);
        push_chars(&mut m, &code);
        push_str(&mut m, ": ");
        push_chars(&mut m, &head);
        return Err(AppError::Auth(string_from_chars(&m)));
    }
    Ok(body)
}

/// What finishing a login on `port` finds of the pending callback listener
/// (the port it listens on, if any): it must be the one the login started.
pub open spec fn spec_pending_check(pending: Option<u16>, port: u16) -> Result<(), Seq<char>> {
    match pending {
        Some(p) => if p == port {
            Ok(())
        } else {
            Err("OAuth session was superseded; please retry"@)
        },
        None => Err("no pending OAuth session; please start again"@),
    }
}

/// Checks the pending callback listener against the login being finished;
/// see `spec_pending_check`.
pub fn check_pending(pending: Option<u16>, port: u16) -> (r: Result<(), AppError>)
    ensures
        match spec_pending_check(pending, port) {
            Ok(_) => r is Ok,
            Err(msg) => r matches Err(AppError::Auth(m)) && m@ == msg,
        },
{
    proof {
        reveal_strlit("OAuth session was superseded; please retry");
        reveal_strlit("no pending OAuth session; please start again");
    }
    match pending {
        Some(p) => if p == port {
            Ok(())
        } else {
            Err(auth_msg("OAuth session was superseded; please retry"))
        },
        None => Err(auth_msg("no pending OAuth session; please start again")),
    }
}

impl OAuthLogin {
    /// The session a code is exchanged under when a login is finished: its
    /// parts as the frontend hands them back, the redirect URI of `port`, no
    /// authorization URL, and an expiry 600 seconds after `now` (wrapping).
    pub fn exchange_session(login_id: String, port: u16, code_verifier: String, state: String, now: i64) -> (r: OAuthSession)
        ensures
            r.login_id == login_id,
            r.auth_url@.len() == 0,
            r.redirect_uri@ == spec_redirect_uri(port),
            r.code_verifier == code_verifier,
            r.state == state,
            r.port == port,
            r.expires_at_unix == now.wrapping_add(600),
    {
        OAuthSession {
            login_id,
            auth_url: String::new(),
            redirect_uri: redirect_uri_for(port),
            code_verifier,
            state,
            port,
            expires_at_unix: now.wrapping_add(600),
        }
    }
}

/// What the frontend learns of a started login.
#[derive(Debug, Clone)]
pub struct OAuthSessionInfo {
    pub login_id: String,
    pub auth_url: String,
    pub port: u16,
    pub expires_at_unix: i64,
    /// The PKCE verifier, handed back when the code is exchanged. Never part
    /// of the authorization URL.
    pub code_verifier: String,
    /// The CSRF state; handled like `code_verifier`.
    pub state: String,
}

impl OAuthSessionInfo {
    /// The frontend's view of a session started on `port`.
    pub fn of_session(session: OAuthSession, port: u16) -> (r: OAuthSessionInfo)
        ensures
            r.login_id == session.login_id,
            r.auth_url == session.auth_url,
            r.port == port,
            r.expires_at_unix == session.expires_at_unix,
            r.code_verifier == session.code_verifier,
            r.state == session.state,
    {
        OAuthSessionInfo {
            login_id: session.login_id,
            auth_url: session.auth_url,
            port,
            expires_at_unix: session.expires_at_unix,
            code_verifier: session.code_verifier,
            state: session.state,
        }
    }
}

/// A callback yields a code only when it comes back on the callback path,
/// carries no `error`, and carries exactly the `state` the login was started
/// with: a forged or replayed callback with another state is refused.
pub proof fn lemma_code_needs_state(url: Seq<char>, expected_state: Seq<char>)
    ensures
        spec_authorization_code(url, expected_state) is Ok ==> {
            &&& spec_split_path_query(url) matches Some((path, query))
            &&& has_suffix(path, "/auth/callback"@)
            &&& form_lookup(spec_parse_form(query), "error"@) is None
            &&& form_lookup(spec_parse_form(query), "state"@) == Some(expected_state)
        },
{
}

/// Escaped text holds no `<`, `>` or `"`: whatever it held cannot open or
/// close markup or an attribute.
pub proof fn lemma_html_escape_plain(s: Seq<char>)
    ensures
        forall|i: int| 0 <= i < spec_html_escape(s).len() ==> {
            let c = #[trigger] spec_html_escape(s)[i];
            c != '<' && c != '>' && c != '"'
        },
    decreases s.len(),
{
    reveal_strlit("&amp;");
    reveal_strlit("&lt;");
    reveal_strlit("&gt;");
    reveal_strlit("&quot;");
    if s.len() > 0 {
        lemma_html_escape_plain(s.drop_last());
        let a = spec_html_escape(s.drop_last());
        let e = escape_char(s.last());
        assert forall|i: int| 0 <= i < spec_html_escape(s).len() implies {
            let c = #[trigger] spec_html_escape(s)[i];
            c != '<' && c != '>' && c != '"'
        } by {
            if i < a.len() {
                assert(spec_html_escape(s)[i] == a[i]);
            } else {
                assert(spec_html_escape(s)[i] == e[i - a.len()]);
            }
        }
    }
}

} // verus!
