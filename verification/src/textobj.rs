//! The two fixed text-object formats that travel with every encrypted
//! payload: the implicit-assertion encoding of the identity quadruple
//! (recomputed on both sides, never persisted) and the wrapped-key
//! footer (persisted alongside the ciphertext).
//!
//! Both are text objects with a fixed field order. Field values are
//! written between double quotes, with `"` and `\` escaped by a
//! backslash. Changing either encoding would break the decryptability
//! of previously encrypted records, so the shapes here are part of the
//! compatibility surface and must round-trip exactly.

use vstd::prelude::*;
use vstd::string::StringSliceAdditionalSpecFns;
use vstd::utf8::{decode_utf8, encode_utf8};

verus! {

/// Holds when no character of `s` is a double quote.
pub open spec fn quote_free(s: Seq<char>) -> bool {
    forall|i: int| 0 <= i < s.len() ==> s[i] != '"'
}

/// Holds when `s` needs no escaping inside a quoted field: it has no
/// double quote and no backslash.
pub open spec fn text_plain(s: Seq<char>) -> bool {
    forall|i: int| 0 <= i < s.len() ==> s[i] != '"' && s[i] != '\\'
}

/// The escaped form of one character inside a quoted field.
pub open spec fn esc_char(c: char) -> Seq<char> {
    if c == '"' {
        seq!['\\', '"']
    } else if c == '\\' {
        seq!['\\', '\\']
    } else {
        seq![c]
    }
}

/// The escaped form of a whole field value.
pub open spec fn esc(s: Seq<char>) -> Seq<char>
    decreases s.len(),
{
    if s.len() == 0 {
        Seq::empty()
    } else {
        esc(s.drop_last()) + esc_char(s.last())
    }
}

/// A value that needs no escaping is written verbatim.
pub proof fn lemma_esc_plain(s: Seq<char>)
    requires
        text_plain(s),
    ensures
        esc(s) == s,
    decreases s.len(),
{
    if s.len() == 0 {
        assert(esc(s) =~= s);
    } else {
        assert(text_plain(s.drop_last()));
        lemma_esc_plain(s.drop_last());
        assert(esc_char(s.last()) =~= seq![s.last()]);
        assert(esc(s) =~= s.drop_last() + seq![s.last()]);
        assert(s.drop_last() + seq![s.last()] =~= s);
    }
}

/// Escaping one more character extends the escaped text.
pub proof fn lemma_esc_take_step(s: Seq<char>, i: int)
    requires
        0 <= i < s.len(),
    ensures
        esc(s.take(i + 1)) == esc(s.take(i)) + esc_char(s[i]),
{
    assert(s.take(i + 1).drop_last() =~= s.take(i));
    assert(s.take(i + 1).last() == s[i]);
}

/// Byte-slice equality, decided element by element.
pub fn bytes_eq(a: &[u8], b: &[u8]) -> (r: bool)
    ensures
        r == (a@ == b@),
{
    if a.len() != b.len() {
        assert(a@ != b@);
        return false;
    }
    let n = a.len();
    let mut i: usize = 0;
    while i < n
        invariant
            n == a@.len() == b@.len(),
            0 <= i <= n,
            forall|j: int| 0 <= j < i ==> a@[j] == b@[j],
        decreases n - i,
    {
        if a[i] != b[i] {
            assert(a@ != b@);
            return false;
        }
        i += 1;
    }
    assert(a@ =~= b@);
    true
}

/// String-slice equality over the character views, decided by
/// comparing the UTF-8 bytes.
pub fn str_eq(a: &str, b: &str) -> (r: bool)
    ensures
        r == (a@ == b@),
{
    let req = bytes_eq(a.as_bytes(), b.as_bytes());
    proof {
        broadcast use vstd::utf8::encode_utf8_decode_utf8;

        if a.spec_bytes() == b.spec_bytes() {
            assert(decode_utf8(encode_utf8(a@)) == decode_utf8(encode_utf8(b@)));
        }
    }
    req
}

/// Whether `pat` occurs in `s` exactly at character position `pos`.
pub fn match_at(s: &str, pos: usize, pat: &str) -> (r: bool)
    requires
        pos + pat@.len() <= s@.len() <= usize::MAX,
    ensures
        r == (s@.subrange(pos as int, pos as int + pat@.len() as int) == pat@),
{
    let m = pat.unicode_len();
    let mut j: usize = 0;
    while j < m
        invariant
            m == pat@.len(),
            pos + m <= s@.len() <= usize::MAX,
            0 <= j <= m,
            forall|k: int| 0 <= k < j ==> s@[pos + k] == pat@[k],
        decreases m - j,
    {
        if s.get_char(pos + j) != pat.get_char(j) {
            proof {
                let sub = s@.subrange(pos as int, pos as int + pat@.len() as int);
                assert(sub[j as int] == s@[pos + j]);
                assert(sub != pat@);
            }
            return false;
        }
        j += 1;
    }
    proof {
        assert(s@.subrange(pos as int, pos as int + pat@.len() as int) =~= pat@);
    }
    true
}

/// Character position of the first double quote of `s` at or after
/// `i`, or the length of `s` if there is none.
pub open spec fn find_quote(s: Seq<char>, i: int) -> int
    decreases s.len() - i,
{
    if i < 0 || i >= s.len() {
        s.len() as int
    } else if s[i] == '"' {
        i
    } else {
        find_quote(s, i + 1)
    }
}

/// `find_quote` names the position it is characterized by: everything
/// before it (from the start of the search) is quote-free, and it
/// carries a quote unless it is the end.
pub proof fn lemma_find_quote_is(s: Seq<char>, from: int, at: int)
    requires
        0 <= from <= at <= s.len(),
        forall|j: int| from <= j < at ==> s[j] != '"',
        at < s.len() ==> s[at] == '"',
    ensures
        find_quote(s, from) == at,
    decreases at - from,
{
    if from == at {
    } else {
        lemma_find_quote_is(s, from + 1, at);
    }
}

/// Finds the first double quote at or after `start`.
pub fn find_quote_at(s: &str, start: usize) -> (r: usize)
    requires
        start <= s@.len(),
    ensures
        r == find_quote(s@, start as int),
        start <= r <= s@.len(),
{
    let n = s.unicode_len();
    let mut i: usize = start;
    while i < n
        invariant
            n == s@.len(),
            start <= i <= n,
            forall|j: int| start <= j < i ==> s@[j] != '"',
        decreases n - i,
    {
        if s.get_char(i) == '"' {
            proof {
                lemma_find_quote_is(s@, start as int, i as int);
            }
            return i;
        }
        i += 1;
    }
    proof {
        lemma_find_quote_is(s@, start as int, n as int);
    }
    n
}

/// Opening of the assertion object up to the start of the `id` value.
pub open spec fn assert_head() -> Seq<char> {
    seq!['{', '"', 'i', 'd', '"', ':', '"']
}

/// Separator between the `id` value and the `version` value.
pub open spec fn sep_version() -> Seq<char> {
    seq!['"', ',', '"', 'v', 'e', 'r', 's', 'i', 'o', 'n', '"', ':', '"']
}

/// Separator between the `version` value and the `tag` value.
pub open spec fn sep_tag() -> Seq<char> {
    seq!['"', ',', '"', 't', 'a', 'g', '"', ':', '"']
}

/// Separator between the `tag` value and the `host` value.
pub open spec fn sep_host() -> Seq<char> {
    seq!['"', ',', '"', 'h', 'o', 's', 't', '"', ':', '"']
}

/// Closing of either text object after its last value.
pub open spec fn obj_end() -> Seq<char> {
    seq!['"', '}']
}

/// Opening of the footer object up to the start of the `wpk` value.
pub open spec fn footer_head() -> Seq<char> {
    seq!['{', '"', 'w', 'p', 'k', '"', ':', '"']
}

/// Separator between the `wpk` value and the `kid` value.
pub open spec fn footer_sep() -> Seq<char> {
    seq!['"', ',', '"', 'k', 'i', 'd', '"', ':', '"']
}

/// The implicit-assertion text for an identity quadruple: the four
/// fields in fixed order, each escaped between quotes.
pub open spec fn assertion_text(
    id: Seq<char>,
    version: Seq<char>,
    tag: Seq<char>,
    host: Seq<char>,
) -> Seq<char> {
    assert_head() + (esc(id) + (sep_version() + (esc(version) + (sep_tag() + (esc(tag) + (sep_host()
        + (esc(host) + obj_end())))))))
}

/// The footer text for a wrapped key `wpk` and the id `kid` of the
/// key that wrapped it.
pub open spec fn footer_text(wpk: Seq<char>, kid: Seq<char>) -> Seq<char> {
    footer_head() + (esc(wpk) + (footer_sep() + (esc(kid) + obj_end())))
}

/// Appends the escaped form of `s` to `out`.
pub fn append_escaped(out: &mut String, s: &str)
    ensures
        final(out)@ == old(out)@ + esc(s@),
{
    let n = s.unicode_len();
    proof {
        assert(s@.take(0) =~= Seq::<char>::empty());
        assert(old(out)@ + esc(s@.take(0)) =~= old(out)@);
    }
    let mut i: usize = 0;
    while i < n
        invariant
            n == s@.len(),
            0 <= i <= n,
            out@ == old(out)@ + esc(s@.take(i as int)),
        decreases n - i,
    {
        let c = s.get_char(i);
        if c == '"' {
            out.append("\\\"");
            proof {
                reveal_strlit("\\\"");
                assert("\\\""@ =~= esc_char(s@[i as int]));
            }
        } else if c == '\\' {
            out.append("\\\\");
            proof {
                reveal_strlit("\\\\");
                assert("\\\\"@ =~= esc_char(s@[i as int]));
            }
        } else {
            let piece = s.substring_char(i, i + 1);
            out.append(piece);
            proof {
                assert(piece@ =~= esc_char(s@[i as int]));
            }
        }
        proof {
            lemma_esc_take_step(s@, i as int);
            assert(out@ =~= old(out)@ + esc(s@.take(i as int + 1)));
        }
        i += 1;
    }
    proof {
        assert(s@.take(n as int) =~= s@);
    }
}

/// Builds the implicit-assertion text for the four identity fields.
pub fn encode_assertion(id: &str, version: &str, tag: &str, host: &str) -> (r: String)
    ensures
        r@ == assertion_text(id@, version@, tag@, host@),
{
    let mut out = String::new();
    out.append("{\"id\":\"");
    append_escaped(&mut out, id);
    out.append("\",\"version\":\"");
    append_escaped(&mut out, version);
    out.append("\",\"tag\":\"");
    append_escaped(&mut out, tag);
    out.append("\",\"host\":\"");
    append_escaped(&mut out, host);
    out.append("\"}");
    proof {
        reveal_strlit("{\"id\":\"");
        reveal_strlit("\",\"version\":\"");
        reveal_strlit("\",\"tag\":\"");
        reveal_strlit("\",\"host\":\"");
        reveal_strlit("\"}");
        assert("{\"id\":\""@ =~= assert_head());
        assert("\",\"version\":\""@ =~= sep_version());
        assert("\",\"tag\":\""@ =~= sep_tag());
        assert("\",\"host\":\""@ =~= sep_host());
        assert("\"}"@ =~= obj_end());
        assert(out@ =~= assertion_text(id@, version@, tag@, host@));
    }
    out
}

/// Builds the footer text for a wrapped key and a key id.
pub fn encode_footer(wpk: &str, kid: &str) -> (r: String)
    ensures
        r@ == footer_text(wpk@, kid@),
{
    let mut out = String::new();
    out.append("{\"wpk\":\"");
    append_escaped(&mut out, wpk);
    out.append("\",\"kid\":\"");
    append_escaped(&mut out, kid);
    out.append("\"}");
    proof {
        reveal_strlit("{\"wpk\":\"");
        reveal_strlit("\",\"kid\":\"");
        reveal_strlit("\"}");
        assert("{\"wpk\":\""@ =~= footer_head());
        assert("\",\"kid\":\""@ =~= footer_sep());
        assert("\"}"@ =~= obj_end());
        assert(out@ =~= footer_text(wpk@, kid@));
    }
    out
}

/// What parsing a footer text yields: the raw `wpk` and `kid`
/// segments, or nothing if the shape is wrong. Values are read up to
/// the next double quote.
pub open spec fn parse_footer_text(s: Seq<char>) -> Option<(Seq<char>, Seq<char>)> {
    if s.len() < 8 || s.subrange(0, 8) != footer_head() {
        None
    } else {
        let q1 = find_quote(s, 8);
        if q1 + 9 > s.len() || s.subrange(q1, q1 + 9) != footer_sep() {
            None
        } else {
            let q2 = find_quote(s, q1 + 9);
            if q2 + 2 == s.len() && s.subrange(q2, q2 + 2) == obj_end() {
                Some((s.subrange(8, q1), s.subrange(q1 + 9, q2)))
            } else {
                None
            }
        }
    }
}

/// Reads the `wpk` and `kid` values back out of a footer text.
pub fn parse_footer(s: &str) -> (r: Option<(String, String)>)
    ensures
        match r {
            None => parse_footer_text(s@) is None,
            Some(p) => parse_footer_text(s@) == Some((p.0@, p.1@)),
        },
{
    proof {
        reveal_strlit("{\"wpk\":\"");
        reveal_strlit("\",\"kid\":\"");
        reveal_strlit("\"}");
        assert("{\"wpk\":\""@ =~= footer_head());
        assert("\",\"kid\":\""@ =~= footer_sep());
        assert("\"}"@ =~= obj_end());
    }
    let n = s.unicode_len();
    if n < 8 {
        return None;
    }
    if !match_at(s, 0, "{\"wpk\":\"") {
        return None;
    }
    let q1 = find_quote_at(s, 8);
    if n - q1 < 9 {
        return None;
    }
    if !match_at(s, q1, "\",\"kid\":\"") {
        return None;
    }
    let q2 = find_quote_at(s, q1 + 9);
    if n - q2 != 2 {
        return None;
    }
    if !match_at(s, q2, "\"}") {
        return None;
    }
    let w = s.substring_char(8, q1).to_owned();
    let k = s.substring_char(q1 + 9, q2).to_owned();
    Some((w, k))
}

/// A footer text always parses back to the values it was built from,
/// for values that need no escaping.
pub proof fn lemma_footer_round_trip(w: Seq<char>, k: Seq<char>)
    requires
        text_plain(w),
        text_plain(k),
    ensures
        parse_footer_text(footer_text(w, k)) == Some((w, k)),
{
    lemma_esc_plain(w);
    lemma_esc_plain(k);
    let s = footer_text(w, k);
    let q1 = 8 + w.len() as int;
    let q2 = q1 + 9 + k.len() as int;
    assert(s.len() == q2 + 2);
    assert(s.subrange(0, 8) =~= footer_head());
    assert forall|j: int| 8 <= j < q1 implies s[j] != '"' by {
        assert(s[j] == w[j - 8]);
    }
    assert(s[q1] == footer_sep()[0]);
    lemma_find_quote_is(s, 8, q1);
    assert(s.subrange(q1, q1 + 9) =~= footer_sep());
    assert forall|j: int| q1 + 9 <= j < q2 implies s[j] != '"' by {
        assert(s[j] == k[j - (q1 + 9)]);
    }
    assert(s[q2] == obj_end()[0]);
    lemma_find_quote_is(s, q1 + 9, q2);
    assert(s.subrange(q2, q2 + 2) =~= obj_end());
    assert(s.subrange(8, q1) =~= w);
    assert(s.subrange(q1 + 9, q2) =~= k);
}

/// Dropping an equal prefix of two equal concatenations leaves equal
/// tails.
pub proof fn lemma_cancel_prefix(p: Seq<char>, x: Seq<char>, y: Seq<char>)
    requires
        p + x == p + y,
    ensures
        x == y,
{
    assert(x =~= (p + x).subrange(p.len() as int, (p + x).len() as int));
    assert(y =~= (p + y).subrange(p.len() as int, (p + y).len() as int));
}

/// Two quoted fields followed by the rest of the object split at the
/// same place: the field runs up to the first quote.
pub proof fn lemma_field_boundary(a: Seq<char>, s: Seq<char>, b: Seq<char>, t: Seq<char>)
    requires
        a + s == b + t,
        quote_free(a),
        quote_free(b),
        0 < s.len(),
        0 < t.len(),
        s[0] == '"',
        t[0] == '"',
    ensures
        a == b,
        s == t,
{
    if a.len() < b.len() {
        assert((a + s)[a.len() as int] == s[0]);
        assert((b + t)[a.len() as int] == b[a.len() as int]);
        assert(false);
    } else if b.len() < a.len() {
        assert((b + t)[b.len() as int] == t[0]);
        assert((a + s)[b.len() as int] == a[b.len() as int]);
        assert(false);
    } else {
        assert(a =~= (a + s).subrange(0, a.len() as int));
        assert(b =~= (b + t).subrange(0, b.len() as int));
        lemma_cancel_prefix(a, s, t);
    }
}

/// One peeling step of the injectivity argument: an escape-free field
/// and the fixed separator after it are recovered uniquely.
proof fn lemma_peel_field(f1: Seq<char>, r1: Seq<char>, f2: Seq<char>, r2: Seq<char>, sep: Seq<char>)
    requires
        f1 + (sep + r1) == f2 + (sep + r2),
        text_plain(f1),
        text_plain(f2),
        0 < sep.len(),
        sep[0] == '"',
    ensures
        f1 == f2,
        r1 == r2,
{
    assert((sep + r1)[0] == sep[0]);
    assert((sep + r2)[0] == sep[0]);
    lemma_field_boundary(f1, sep + r1, f2, sep + r2);
    lemma_cancel_prefix(sep, r1, r2);
}

/// The assertion text is injective on identity quadruples whose
/// fields need no escaping: distinct quadruples have distinct
/// assertion texts, so a payload is bound to exactly one identity.
pub proof fn lemma_assertion_text_injective(
    i1: Seq<char>,
    v1: Seq<char>,
    t1: Seq<char>,
    h1: Seq<char>,
    i2: Seq<char>,
    v2: Seq<char>,
    t2: Seq<char>,
    h2: Seq<char>,
)
    requires
        text_plain(i1) && text_plain(v1) && text_plain(t1) && text_plain(h1),
        text_plain(i2) && text_plain(v2) && text_plain(t2) && text_plain(h2),
        assertion_text(i1, v1, t1, h1) == assertion_text(i2, v2, t2, h2),
    ensures
        i1 == i2 && v1 == v2 && t1 == t2 && h1 == h2,
{
    lemma_esc_plain(i1);
    lemma_esc_plain(v1);
    lemma_esc_plain(t1);
    lemma_esc_plain(h1);
    lemma_esc_plain(i2);
    lemma_esc_plain(v2);
    lemma_esc_plain(t2);
    lemma_esc_plain(h2);
    let x1 = i1 + (sep_version() + (v1 + (sep_tag() + (t1 + (sep_host() + (h1 + obj_end()))))));
    let x2 = i2 + (sep_version() + (v2 + (sep_tag() + (t2 + (sep_host() + (h2 + obj_end()))))));
    lemma_cancel_prefix(assert_head(), x1, x2);
    lemma_peel_field(
        i1,
        v1 + (sep_tag() + (t1 + (sep_host() + (h1 + obj_end())))),
        i2,
        v2 + (sep_tag() + (t2 + (sep_host() + (h2 + obj_end())))),
        sep_version(),
    );
    lemma_peel_field(
        v1,
        t1 + (sep_host() + (h1 + obj_end())),
        v2,
        t2 + (sep_host() + (h2 + obj_end())),
        sep_tag(),
    );
    lemma_peel_field(t1, h1 + obj_end(), t2, h2 + obj_end(), sep_host());
    assert((h1 + obj_end())[h1.len() as int] == obj_end()[0]);
    assert((h2 + obj_end())[h2.len() as int] == obj_end()[0]);
    lemma_field_boundary(h1, obj_end(), h2, obj_end());
}

} // verus!
