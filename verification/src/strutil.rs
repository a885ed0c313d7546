//! Verified string primitives: comparison, search, replacement and
//! whitespace splitting, each stated over the `Seq<char>` view.

use vstd::prelude::*;
use vstd::multiset::Multiset;

verus! {

/// `p` is a prefix of `s`.
pub open spec fn spec_starts_with(s: Seq<char>, p: Seq<char>) -> bool {
    p.len() <= s.len() && s.subrange(0, p.len() as int) == p
}

/// `p` occurs in `s` at position `i`.
pub open spec fn spec_contains_at(s: Seq<char>, p: Seq<char>, i: int) -> bool {
    0 <= i && i + p.len() <= s.len() && s.subrange(i, i + p.len() as int) == p
}

/// `p` occurs somewhere in `s`.
pub open spec fn spec_contains(s: Seq<char>, p: Seq<char>) -> bool {
    exists|i: int| spec_contains_at(s, p, i)
}

/// The ASCII whitespace characters that delimit fields in server replies.
pub open spec fn is_space_char(c: char) -> bool {
    c == ' ' || c == '\t' || c == '\n' || c == '\r'
}

/// Relies on std's `String::push`: appends exactly the one character.
#[verifier::external_body]
pub fn push_char(s: &mut String, c: char)
    ensures
        final(s)@ == old(s)@.push(c),
{
    s.push(c);
}

/// Relies on std's `str::from_utf8`: succeeds exactly on valid UTF-8 and
/// decodes the bytes.
#[verifier::external_body]
pub fn str_from_utf8(b: &[u8]) -> (r: Option<&str>)
    ensures
        r is Some <==> vstd::utf8::valid_utf8(b@),
        r matches Some(s) ==> s@ == vstd::utf8::decode_utf8(b@),
{
    match std::str::from_utf8(b) {
        Ok(s) => Some(s),
        Err(_) => None,
    }
}

/// Character-for-character string equality.
pub fn str_eq(a: &str, b: &str) -> (r: bool)
    ensures
        r == (a@ == b@),
{
    let alen = a.unicode_len();
    let blen = b.unicode_len();
    if alen != blen {
        return false;
    }
    let mut i: usize = 0;
    while i < alen
        invariant
            alen == a@.len(),
            blen == b@.len(),
            alen == blen,
            0 <= i <= alen,
            forall|j: int| 0 <= j < i ==> a@[j] == b@[j],
        decreases alen - i,
    {
        let ca = a.get_char(i);
        let cb = b.get_char(i);
        if ca != cb {
            return false;
        }
        i = i + 1;
    }
    proof {
        assert(a@ =~= b@);
    }
    true
}

/// Whether `p` is a prefix of `s`.
pub fn str_starts_with(s: &str, p: &str) -> (r: bool)
    ensures
        r == spec_starts_with(s@, p@),
{
    let slen = s.unicode_len();
    let plen = p.unicode_len();
    if plen > slen {
        return false;
    }
    let mut i: usize = 0;
    while i < plen
        invariant
            slen == s@.len(),
            plen == p@.len(),
            plen <= slen,
            0 <= i <= plen,
            forall|j: int| 0 <= j < i ==> s@[j] == p@[j],
        decreases plen - i,
    {
        let cs = s.get_char(i);
        let cp = p.get_char(i);
        if cs != cp {
            proof {
                assert(s@.subrange(0, p@.len() as int)[i as int] == s@[i as int]);
            }
            return false;
        }
        i = i + 1;
    }
    proof {
        assert(s@.subrange(0, p@.len() as int) =~= p@);
    }
    true
}

/// Whether `p` occurs in `s` starting at `at`.
fn match_at(s: &str, p: &str, at: usize) -> (r: bool)
    requires
        at + p@.len() <= s@.len(),
    ensures
        r == spec_contains_at(s@, p@, at as int),
{
    let plen = p.unicode_len();
    let slen = s.unicode_len();
    let mut i: usize = 0;
    while i < plen
        invariant
            plen == p@.len(),
            slen == s@.len(),
            at + plen <= s@.len(),
            0 <= i <= plen,
            forall|j: int| 0 <= j < i ==> s@[at + j] == p@[j],
        decreases plen - i,
    {
        let cs = s.get_char(at + i);
        let cp = p.get_char(i);
        if cs != cp {
            proof {
                assert(s@.subrange(at as int, at + p@.len() as int)[i as int] == s@[at + i]);
            }
            return false;
        }
        i = i + 1;
    }
    proof {
        assert(s@.subrange(at as int, at + p@.len() as int) =~= p@);
    }
    true
}

/// Whether `p` occurs anywhere in `s`.
pub fn str_contains(s: &str, p: &str) -> (r: bool)
    ensures
        r == spec_contains(s@, p@),
{
    let slen = s.unicode_len();
    let plen = p.unicode_len();
    if plen > slen {
        proof {
            assert(forall|i: int| !spec_contains_at(s@, p@, i));
        }
        return false;
    }
    if plen == 0 {
        proof {
            assert(s@.subrange(0, 0) =~= p@);
            assert(spec_contains_at(s@, p@, 0));
        }
        return true;
    }
    let mut i: usize = 0;
    while i <= slen - plen
        invariant
            slen == s@.len(),
            plen == p@.len(),
            0 < plen <= slen,
            0 <= i <= slen - plen + 1,
            forall|j: int| 0 <= j < i ==> !spec_contains_at(s@, p@, j),
        decreases slen - i,
    {
        if match_at(s, p, i) {
            proof {
                assert(spec_contains_at(s@, p@, i as int));
            }
            return true;
        }
        i = i + 1;
    }
    proof {
        assert forall|j: int| !spec_contains_at(s@, p@, j) by {
            if 0 <= j < i {
            } else {
            }
        }
    }
    false
}

/// The non-overlapping, left-to-right replacement of `pat` by `rep` in `s`;
/// an empty pattern leaves `s` unchanged.
pub open spec fn spec_replace(s: Seq<char>, pat: Seq<char>, rep: Seq<char>) -> Seq<char>
    decreases s.len(),
{
    if pat.len() == 0 || s.len() == 0 {
        s
    } else if spec_starts_with(s, pat) {
        rep + spec_replace(s.skip(pat.len() as int), pat, rep)
    } else {
        seq![s[0]] + spec_replace(s.drop_first(), pat, rep)
    }
}

/// Replaces every non-overlapping occurrence of `pat` in `s` by `rep`.
pub fn str_replace(s: &str, pat: &str, rep: &str) -> (r: String)
    ensures
        r@ == spec_replace(s@, pat@, rep@),
    decreases s@.len(),
{
    let slen = s.unicode_len();
    let patlen = pat.unicode_len();
    if patlen == 0 || slen == 0 {
        return s.to_owned();
    }
    if str_starts_with(s, pat) {
        let rest = s.substring_char(patlen, slen);
        let tail = str_replace(rest, pat, rep);
        rep.to_owned().concat(tail.as_str())
    } else {
        let head = s.substring_char(0, 1);
        let rest = s.substring_char(1, slen);
        let tail = str_replace(rest, pat, rep);
        proof {
            assert(head@ =~= seq![s@[0]]);
            assert(rest@ =~= s@.drop_first());
        }
        head.to_owned().concat(tail.as_str())
    }
}

/// One step of whitespace splitting: the tokens of `s` given that `cur`
/// holds the partial token read so far.
pub open spec fn spec_split_ws_acc(s: Seq<char>, cur: Seq<char>) -> Seq<Seq<char>>
    decreases s.len(),
{
    if s.len() == 0 {
        if cur.len() == 0 {
            Seq::empty()
        } else {
            seq![cur]
        }
    } else if is_space_char(s[0]) {
        if cur.len() == 0 {
            spec_split_ws_acc(s.drop_first(), Seq::empty())
        } else {
            seq![cur] + spec_split_ws_acc(s.drop_first(), Seq::empty())
        }
    } else {
        spec_split_ws_acc(s.drop_first(), cur.push(s[0]))
    }
}

/// The maximal whitespace-free tokens of `s`, in order.
pub open spec fn spec_split_whitespace(s: Seq<char>) -> Seq<Seq<char>> {
    spec_split_ws_acc(s, Seq::empty())
}

/// Splits `s` on runs of ASCII whitespace, dropping empty tokens.
pub fn split_whitespace(s: &str) -> (r: Vec<String>)
    ensures
        r.deep_view() == spec_split_whitespace(s@),
{
    let len = s.unicode_len();
    let mut out: Vec<String> = Vec::new();
    let mut cur: String = String::new();
    let mut i: usize = 0;
    proof {
        assert(out.deep_view() =~= Seq::<Seq<char>>::empty());
        assert(s@.skip(0) =~= s@);
        assert(Seq::<Seq<char>>::empty() + spec_split_ws_acc(s@, cur@) =~= spec_split_ws_acc(
            s@,
            cur@,
        ));
    }
    while i < len
        invariant
            len == s@.len(),
            0 <= i <= len,
            spec_split_whitespace(s@) == out.deep_view() + spec_split_ws_acc(
                s@.skip(i as int),
                cur@,
            ),
        decreases len - i,
    {
        let c = s.get_char(i);
        let ghost rest = s@.skip(i as int);
        proof {
            assert(rest.len() > 0);
            assert(rest[0] == s@[i as int]);
            assert(rest.drop_first() =~= s@.skip(i as int + 1));
        }
        if c == ' ' || c == '\t' || c == '\n' || c == '\r' {
            if !cur.as_str().is_empty() {
                let ghost old_out = out.deep_view();
                let ghost tok = cur@;
                out.push(cur);
                cur = String::new();
                proof {
                    assert(spec_split_ws_acc(rest, tok) == seq![tok] + spec_split_ws_acc(
                        rest.drop_first(),
                        Seq::empty(),
                    ));
                    assert(out.deep_view() =~= old_out + seq![tok]);
                    assert(old_out + (seq![tok] + spec_split_ws_acc(
                        s@.skip(i as int + 1),
                        Seq::empty(),
                    )) =~= out.deep_view() + spec_split_ws_acc(s@.skip(i as int + 1), cur@));
                }
            } else {
                proof {
                    assert(cur@ =~= Seq::<char>::empty());
                    assert(spec_split_ws_acc(rest, cur@) == spec_split_ws_acc(
                        rest.drop_first(),
                        Seq::empty(),
                    ));
                }
            }
        } else {
            let ghost old_cur = cur@;
            push_char(&mut cur, c);
            proof {
                assert(spec_split_ws_acc(rest, old_cur) == spec_split_ws_acc(
                    rest.drop_first(),
                    old_cur.push(rest[0]),
                ));
                assert(cur@ == old_cur.push(s@[i as int]));
            }
        }
        i = i + 1;
    }
    proof {
        assert(s@.skip(len as int) =~= Seq::<char>::empty());
    }
    if !cur.as_str().is_empty() {
        let ghost old_out = out.deep_view();
        let ghost tok = cur@;
        proof {
            assert(spec_split_ws_acc(Seq::<char>::empty(), tok) == seq![tok]);
        }
        out.push(cur);
        proof {
            assert(out.deep_view() =~= old_out + seq![tok]);
        }
        return out;
    }
    proof {
        assert(cur@ =~= Seq::<char>::empty());
        assert(spec_split_ws_acc(Seq::<char>::empty(), cur@) =~= Seq::<Seq<char>>::empty());
        assert(out.deep_view() + Seq::<Seq<char>>::empty() =~= out.deep_view());
    }
    out
}

/// One step of separator splitting: the tokens of `s` given that `cur`
/// holds the partial token read so far.  Unlike whitespace splitting,
/// empty tokens are kept, as `str::split` keeps them.
pub open spec fn spec_split_char_acc(s: Seq<char>, sep: char, cur: Seq<char>) -> Seq<Seq<char>>
    decreases s.len(),
{
    if s.len() == 0 {
        seq![cur]
    } else if s[0] == sep {
        seq![cur] + spec_split_char_acc(s.drop_first(), sep, Seq::empty())
    } else {
        spec_split_char_acc(s.drop_first(), sep, cur.push(s[0]))
    }
}

/// The tokens of `s` between occurrences of `sep`, empty tokens kept.
pub open spec fn spec_split_char(s: Seq<char>, sep: char) -> Seq<Seq<char>> {
    spec_split_char_acc(s, sep, Seq::empty())
}

/// Separator splitting always yields at least one token.
proof fn lemma_split_char_acc_nonempty(s: Seq<char>, sep: char, cur: Seq<char>)
    ensures
        spec_split_char_acc(s, sep, cur).len() >= 1,
    decreases s.len(),
{
    if s.len() > 0 && s[0] != sep {
        lemma_split_char_acc_nonempty(s.drop_first(), sep, cur.push(s[0]));
    } else if s.len() > 0 {
    }
}

/// Splits `s` at every occurrence of `sep`, keeping empty tokens.
pub fn split_char(s: &str, sep: char) -> (r: Vec<String>)
    ensures
        r.deep_view() == spec_split_char(s@, sep),
{
    let len = s.unicode_len();
    let mut out: Vec<String> = Vec::new();
    let mut cur: String = String::new();
    let mut i: usize = 0;
    proof {
        assert(out.deep_view() =~= Seq::<Seq<char>>::empty());
        assert(s@.skip(0) =~= s@);
        assert(Seq::<Seq<char>>::empty() + spec_split_char_acc(s@, sep, cur@)
            =~= spec_split_char_acc(s@, sep, cur@));
    }
    while i < len
        invariant
            len == s@.len(),
            0 <= i <= len,
            spec_split_char(s@, sep) == out.deep_view() + spec_split_char_acc(
                s@.skip(i as int),
                sep,
                cur@,
            ),
        decreases len - i,
    {
        let c = s.get_char(i);
        let ghost rest = s@.skip(i as int);
        proof {
            assert(rest.len() > 0);
            assert(rest[0] == s@[i as int]);
            assert(rest.drop_first() =~= s@.skip(i as int + 1));
        }
        if c == sep {
            let ghost old_out = out.deep_view();
            let ghost tok = cur@;
            out.push(cur);
            cur = String::new();
            proof {
                assert(out.deep_view() =~= old_out + seq![tok]);
                assert(old_out + (seq![tok] + spec_split_char_acc(
                    s@.skip(i as int + 1),
                    sep,
                    Seq::empty(),
                )) =~= out.deep_view() + spec_split_char_acc(s@.skip(i as int + 1), sep, cur@));
            }
        } else {
            let ghost old_cur = cur@;
            push_char(&mut cur, c);
            proof {
                assert(cur@ == old_cur.push(s@[i as int]));
            }
        }
        i = i + 1;
    }
    proof {
        assert(s@.skip(len as int) =~= Seq::<char>::empty());
    }
    let ghost old_out = out.deep_view();
    let ghost tok = cur@;
    out.push(cur);
    proof {
        assert(out.deep_view() =~= old_out + seq![tok]);
    }
    out
}

/// A token with one trailing carriage return removed, the way `str::lines`
/// treats a `\r\n` ending.
pub open spec fn spec_strip_cr(t: Seq<char>) -> Seq<char> {
    if t.len() > 0 && t.last() == '\r' {
        t.drop_last()
    } else {
        t
    }
}

/// The lines of `s`: split at `\n`, a final line ending optional, and a
/// trailing `\r` removed from each line.
pub open spec fn spec_lines(s: Seq<char>) -> Seq<Seq<char>> {
    let t = spec_split_char(s, '\n');
    let kept = if t.last().len() == 0 {
        t.drop_last()
    } else {
        t
    };
    kept.map_values(|x: Seq<char>| spec_strip_cr(x))
}

/// Splits `s` into its lines, the way `str::lines` does.
pub fn split_lines(s: &str) -> (r: Vec<String>)
    ensures
        r.deep_view() == spec_lines(s@),
{
    let raw = split_char(s, '\n');
    let ghost t = spec_split_char(s@, '\n');
    proof {
        lemma_split_char_acc_nonempty(s@, '\n', Seq::empty());
    }
    let mut out: Vec<String> = Vec::new();
    let n = raw.len();
    let last_empty = raw[n - 1].as_str().is_empty();
    let keep = if last_empty {
        n - 1
    } else {
        n
    };
    let ghost kept = if t.last().len() == 0 {
        t.drop_last()
    } else {
        t
    };
    proof {
        assert(raw.deep_view().len() == raw@.len());
        assert(raw.deep_view()[n - 1] == raw@[n - 1]@);
        assert(kept.len() == keep);
        assert(forall|j: int| 0 <= j < keep ==> kept[j] == t[j]);
    }
    let mut i: usize = 0;
    while i < keep
        invariant
            keep <= raw@.len(),
            raw.deep_view() == t,
            kept.len() == keep,
            forall|j: int| 0 <= j < keep ==> kept[j] == t[j],
            0 <= i <= keep,
            out.deep_view().len() == i,
            forall|j: int| 0 <= j < i ==> out.deep_view()[j] == spec_strip_cr(kept[j]),
        decreases keep - i,
    {
        let line = &raw[i];
        let llen = line.as_str().unicode_len();
        let stripped: String = if llen > 0 && line.as_str().get_char(llen - 1) == '\r' {
            line.as_str().substring_char(0, llen - 1)
        } else {
            line.as_str().substring_char(0, llen)
        }.to_owned();
        proof {
            assert(raw@[i as int]@ == t[i as int]);
            if llen > 0 && t[i as int].last() == '\r' {
                assert(stripped@ =~= spec_strip_cr(t[i as int]));
            } else {
                assert(stripped@ =~= spec_strip_cr(t[i as int]));
            }
        }
        let ghost old_out = out.deep_view();
        let ghost tokv = stripped@;
        out.push(stripped);
        proof {
            assert(out.deep_view() =~= old_out + seq![tokv]);
        }
        i = i + 1;
    }
    proof {
        assert(out.deep_view() =~= kept.map_values(|x: Seq<char>| spec_strip_cr(x)));
    }
    out
}

/// How many times `c` occurs in `s`.
pub open spec fn spec_count_char(s: Seq<char>, c: char) -> int
    decreases s.len(),
{
    if s.len() == 0 {
        0
    } else {
        (if s[0] == c {
            1int
        } else {
            0int
        }) + spec_count_char(s.drop_first(), c)
    }
}

/// The index of the first occurrence of `c` in `s`, or -1.
pub open spec fn spec_find_char(s: Seq<char>, c: char) -> int
    decreases s.len(),
{
    if s.len() == 0 {
        -1
    } else if s[0] == c {
        0
    } else {
        let r = spec_find_char(s.drop_first(), c);
        if r == -1 {
            -1
        } else {
            r + 1
        }
    }
}

proof fn lemma_count_char_take(s: Seq<char>, c: char, i: int)
    requires
        0 <= i < s.len(),
    ensures
        spec_count_char(s.take(i + 1), c) == spec_count_char(s.take(i), c) + (if s[i] == c {
            1int
        } else {
            0int
        }),
    decreases i,
{
    if i == 0 {
        assert(s.take(1).drop_first() =~= s.take(0));
        assert(s.take(1)[0] == s[0]);
        assert(s.take(0).len() == 0);
    } else {
        lemma_count_char_take(s.drop_first(), c, i - 1);
        assert(s.take(i + 1)[0] == s[0]);
        assert(s.take(i + 1).drop_first() =~= s.drop_first().take(i));
        assert(s.take(i).drop_first() =~= s.drop_first().take(i - 1));
        assert(s.drop_first()[i - 1] == s[i]);
    }
}

proof fn lemma_find_char_absent(s: Seq<char>, c: char, i: int)
    requires
        0 <= i <= s.len(),
        forall|j: int| 0 <= j < i ==> s[j] != c,
    ensures
        i == s.len() ==> spec_find_char(s, c) == -1,
        i < s.len() && s[i] == c ==> spec_find_char(s, c) == i,
    decreases s.len(),
{
    if s.len() > 0 {
        if i > 0 {
            assert(s[0] != c);
            lemma_find_char_absent(s.drop_first(), c, i - 1);
            assert(forall|j: int| 0 <= j < i - 1 ==> s.drop_first()[j] == s[j + 1]);
            if i < s.len() {
                assert(s.drop_first()[i - 1] == s[i]);
            }
        }
    }
}

/// Splits `s` around its single occurrence of `c`; fails when `c` occurs
/// zero times or more than once.
pub fn split_once_char(s: &str, c: char) -> (r: Option<(String, String)>)
    ensures
        (r is Some) == (spec_count_char(s@, c) == 1),
        r matches Some(kv) ==> {
            let i = spec_find_char(s@, c);
            &&& 0 <= i < s@.len()
            &&& s@[i] == c
            &&& kv.0@ == s@.take(i)
            &&& kv.1@ == s@.skip(i + 1)
        },
{
    let len = s.unicode_len();
    let mut count: usize = 0;
    let mut first: usize = 0;
    let mut found = false;
    let mut i: usize = 0;
    proof {
        assert(s@.take(0).len() == 0);
    }
    while i < len
        invariant
            len == s@.len(),
            0 <= i <= len,
            count <= i,
            spec_count_char(s@.take(i as int), c) == count,
            found == (count > 0),
            !found ==> forall|j: int| 0 <= j < i ==> s@[j] != c,
            found ==> 0 <= first < i && s@[first as int] == c && (forall|j: int|
                0 <= j < first ==> s@[j] != c),
        decreases len - i,
    {
        let ch = s.get_char(i);
        proof {
            lemma_count_char_take(s@, c, i as int);
        }
        if ch == c {
            if !found {
                first = i;
                found = true;
            }
            count = count + 1;
        }
        i = i + 1;
    }
    proof {
        assert(s@.take(len as int) =~= s@);
    }
    if count == 1 {
        proof {
            lemma_find_char_absent(s@, c, first as int);
        }
        let k = s.substring_char(0, first).to_owned();
        let v = s.substring_char(first + 1, len).to_owned();
        proof {
            assert(k@ =~= s@.take(first as int));
            assert(v@ =~= s@.skip(first as int + 1));
        }
        Some((k, v))
    } else {
        None
    }
}

/// Lexicographic order on strings, by Unicode scalar value; on UTF-8
/// encodings this coincides with byte order.
pub open spec fn spec_str_le(a: Seq<char>, b: Seq<char>) -> bool
    decreases a.len(),
{
    if a.len() == 0 {
        true
    } else if b.len() == 0 {
        false
    } else if (a[0] as u32) < (b[0] as u32) {
        true
    } else if (a[0] as u32) > (b[0] as u32) {
        false
    } else {
        spec_str_le(a.drop_first(), b.drop_first())
    }
}

/// Any two strings are ordered one way or the other.
pub proof fn lemma_str_le_total(a: Seq<char>, b: Seq<char>)
    ensures
        spec_str_le(a, b) || spec_str_le(b, a),
    decreases a.len(),
{
    if a.len() > 0 && b.len() > 0 && (a[0] as u32) == (b[0] as u32) {
        lemma_str_le_total(a.drop_first(), b.drop_first());
    }
}

/// Lexicographic order is transitive.
pub proof fn lemma_str_le_trans(a: Seq<char>, b: Seq<char>, c: Seq<char>)
    requires
        spec_str_le(a, b),
        spec_str_le(b, c),
    ensures
        spec_str_le(a, c),
    decreases a.len(),
{
    if a.len() > 0 && b.len() > 0 && c.len() > 0 && (a[0] as u32) == (b[0] as u32) && (b[0] as u32)
        == (c[0] as u32) {
        lemma_str_le_trans(a.drop_first(), b.drop_first(), c.drop_first());
    }
}

/// Lexicographic string comparison, by Unicode scalar value.
pub fn str_le(a: &str, b: &str) -> (r: bool)
    ensures
        r == spec_str_le(a@, b@),
{
    let alen = a.unicode_len();
    let blen = b.unicode_len();
    let mut i: usize = 0;
    proof {
        assert(a@.skip(0) =~= a@);
        assert(b@.skip(0) =~= b@);
    }
    while i < alen && i < blen
        invariant
            alen == a@.len(),
            blen == b@.len(),
            0 <= i <= alen,
            0 <= i <= blen,
            spec_str_le(a@, b@) == spec_str_le(a@.skip(i as int), b@.skip(i as int)),
        decreases alen - i,
    {
        let ca = a.get_char(i) as u32;
        let cb = b.get_char(i) as u32;
        proof {
            assert(a@.skip(i as int)[0] == a@[i as int]);
            assert(b@.skip(i as int)[0] == b@[i as int]);
            assert(a@.skip(i as int).drop_first() =~= a@.skip(i as int + 1));
            assert(b@.skip(i as int).drop_first() =~= b@.skip(i as int + 1));
        }
        if ca < cb {
            return true;
        }
        if ca > cb {
            return false;
        }
        i = i + 1;
    }
    proof {
        if i == alen {
            assert(a@.skip(i as int) =~= Seq::<char>::empty());
        } else {
            assert(b@.skip(i as int) =~= Seq::<char>::empty());
            assert(a@.skip(i as int).len() > 0);
        }
    }
    alen <= blen
}

/// Inserting anywhere into a sequence adds one occurrence to its multiset.
proof fn lemma_insert_to_multiset<A>(s: Seq<A>, i: int, x: A)
    requires
        0 <= i <= s.len(),
    ensures
        s.insert(i, x).to_multiset() =~= s.to_multiset().insert(x),
{
    broadcast use vstd::seq_lib::group_to_multiset_ensures;

    assert(s.insert(i, x) =~= s.take(i).push(x) + s.skip(i));
    assert(s =~= s.take(i) + s.skip(i));
    vstd::seq_lib::lemma_multiset_commutative(s.take(i).push(x), s.skip(i));
    vstd::seq_lib::lemma_multiset_commutative(s.take(i), s.skip(i));
}

/// The character sequences of a sequence of strings.
pub open spec fn views_of(v: Seq<String>) -> Seq<Seq<char>> {
    v.map_values(|s: String| s@)
}

/// Sorts strings lexicographically: the result is ordered and holds
/// exactly the input's strings.
pub fn sort_strings(input: Vec<String>) -> (r: Vec<String>)
    ensures
        views_of(r@).to_multiset() == views_of(input@).to_multiset(),
        forall|i: int, j: int|
            0 <= i < j < r@.len() ==> spec_str_le(#[trigger] r@[i]@, #[trigger] r@[j]@),
{
    let mut rest = input;
    let mut out: Vec<String> = Vec::new();
    proof {
        broadcast use vstd::seq_lib::group_to_multiset_ensures;

        assert(views_of(out@) =~= Seq::<Seq<char>>::empty());
        assert(views_of(out@).to_multiset().len() == 0);
        assert(views_of(out@).to_multiset() =~= Multiset::empty());
        assert(views_of(out@).to_multiset().add(views_of(rest@).to_multiset())
            =~= views_of(rest@).to_multiset());
    }
    loop
        invariant
            views_of(out@).to_multiset().add(views_of(rest@).to_multiset()) == views_of(
                input@,
            ).to_multiset(),
            forall|i: int, j: int|
                0 <= i < j < out@.len() ==> spec_str_le(#[trigger] out@[i]@, #[trigger] out@[j]@),
        ensures
            rest@.len() == 0,
            views_of(out@).to_multiset().add(views_of(rest@).to_multiset()) == views_of(
                input@,
            ).to_multiset(),
            forall|i: int, j: int|
                0 <= i < j < out@.len() ==> spec_str_le(#[trigger] out@[i]@, #[trigger] out@[j]@),
        decreases rest@.len(),
    {
        let ghost old_rest = rest@;
        let x = match rest.pop() {
            Some(x) => x,
            None => {
                break ;
            },
        };
        proof {
            broadcast use vstd::seq_lib::group_to_multiset_ensures;

            assert(views_of(old_rest) =~= views_of(rest@).push(x@));
            assert(views_of(rest@).push(x@).to_multiset() =~= views_of(
                rest@,
            ).to_multiset().insert(x@));
        }
        let n = out.len();
        let mut p: usize = 0;
        while p < n && str_le(out[p].as_str(), x.as_str())
            invariant
                n == out@.len(),
                0 <= p <= n,
                forall|q: int| 0 <= q < p ==> spec_str_le((#[trigger] out@[q])@, x@),
            decreases n - p,
        {
            p = p + 1;
        }
        let ghost old_out = out@;
        proof {
            if p < n {
                lemma_str_le_total(old_out[p as int]@, x@);
            }
            assert forall|q: int| p <= q < n implies spec_str_le(x@, (#[trigger] old_out[q])@) by {
                if p < n {
                    assert(spec_str_le(x@, old_out[p as int]@));
                    if q > p {
                        assert(spec_str_le(old_out[p as int]@, old_out[q]@));
                        lemma_str_le_trans(x@, old_out[p as int]@, old_out[q]@);
                    }
                }
            }
        }
        out.insert(p, x);
        proof {
            assert(views_of(out@) =~= views_of(old_out).insert(p as int, x@));
            lemma_insert_to_multiset(views_of(old_out), p as int, x@);
            assert(forall|q: int|
                0 <= q < p ==> out@[q] == old_out[q]);
            assert(out@[p as int] == x);
            assert(forall|q: int|
                p < q < out@.len() ==> out@[q] == old_out[q - 1]);
            assert(views_of(out@).to_multiset().add(views_of(rest@).to_multiset()) =~= views_of(
                input@,
            ).to_multiset());
        }
    }
    proof {
        broadcast use vstd::seq_lib::group_to_multiset_ensures;

        assert(views_of(rest@).len() == 0);
        assert(views_of(rest@).to_multiset().len() == 0);
        assert(views_of(rest@).to_multiset() =~= Multiset::empty());
        assert(views_of(out@).to_multiset() =~= views_of(input@).to_multiset());
    }
    out
}

} // verus!
