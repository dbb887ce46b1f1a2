use vstd::prelude::*;

verus! {

/// `t` occurs in `s` starting at position `i`.
pub open spec fn occurs_at(s: Seq<char>, t: Seq<char>, i: int) -> bool {
    0 <= i && i + t.len() <= s.len() && s.subrange(i, i + t.len()) == t
}

/// `t` occurs somewhere in `s`.
pub open spec fn occurs_in(s: Seq<char>, t: Seq<char>) -> bool {
    exists|i: int| occurs_at(s, t, i)
}

/// The first position at or after `i` where `t` occurs in `s`.
pub open spec fn first_from(s: Seq<char>, t: Seq<char>, i: int) -> Option<int>
    decreases s.len() + 1 - i,
{
    if i < 0 || i + t.len() > s.len() {
        None
    } else if occurs_at(s, t, i) {
        Some(i)
    } else {
        first_from(s, t, i + 1)
    }
}

/// The last position at or before `i` where `t` occurs in `s`.
pub open spec fn last_upto(s: Seq<char>, t: Seq<char>, i: int) -> Option<int>
    decreases i + 1,
{
    if i < 0 {
        None
    } else if occurs_at(s, t, i) {
        Some(i)
    } else {
        last_upto(s, t, i - 1)
    }
}

/// The first occurrence of `t` in `s`.
pub open spec fn first_index(s: Seq<char>, t: Seq<char>) -> Option<int> {
    first_from(s, t, 0)
}

/// The last occurrence of `t` in `s`.
pub open spec fn last_index(s: Seq<char>, t: Seq<char>) -> Option<int> {
    last_upto(s, t, s.len() - t.len())
}

/// A position that `first_from` gives holds an occurrence.
pub proof fn lemma_first_from_occurs(s: Seq<char>, t: Seq<char>, i: int)
    ensures
        match first_from(s, t, i) {
            Some(k) => i <= k && occurs_at(s, t, k),
            None => true,
        },
    decreases s.len() + 1 - i,
{
    if !(i < 0 || i + t.len() > s.len()) && !occurs_at(s, t, i) {
        lemma_first_from_occurs(s, t, i + 1);
    }
}

/// A position that `last_upto` gives holds an occurrence.
pub proof fn lemma_last_upto_occurs(s: Seq<char>, t: Seq<char>, i: int)
    ensures
        match last_upto(s, t, i) {
            Some(k) => k <= i && occurs_at(s, t, k),
            None => true,
        },
    decreases i + 1,
{
    if i >= 0 && !occurs_at(s, t, i) {
        lemma_last_upto_occurs(s, t, i - 1);
    }
}

/// Whether `t` occurs in `s` at position `i`.
pub fn matches_at(s: &str, t: &str, i: usize) -> (r: bool)
    requires
        i + t@.len() <= s@.len(),
        s@.len() <= usize::MAX,
    ensures
        r == occurs_at(s@, t@, i as int),
{
    let n = t.unicode_len();
    let mut k: usize = 0;
    while k < n
        invariant
            n == t@.len(),
            i + n <= s@.len(),
            s@.len() <= usize::MAX,
            k <= n,
            forall|j: int| 0 <= j < k ==> s@[i + j] == t@[j],
        decreases n - k,
    {
        if s.get_char(i + k) != t.get_char(k) {
            assert(s@.subrange(i as int, i + n)[k as int] != t@[k as int]);
            return false;
        }
        k += 1;
    }
    assert(s@.subrange(i as int, i + n) =~= t@);
    true
}

/// The first position where `t` occurs in `s`.
pub fn find_first(s: &str, t: &str) -> (r: Option<usize>)
    ensures
        match r {
            Some(i) => first_index(s@, t@) == Some(i as int),
            None => first_index(s@, t@) is None,
        },
{
    let n = s.unicode_len();
    let m = t.unicode_len();
    if m > n {
        return None;
    }
    if m == 0 {
        assert(s@.subrange(0, 0) =~= t@);
        return Some(0);
    }
    let mut i: usize = 0;
    while i <= n - m
        invariant
            n == s@.len(),
            m == t@.len(),
            0 < m <= n,
            i <= n - m + 1,
            first_from(s@, t@, 0) == first_from(s@, t@, i as int),
        decreases n - m + 1 - i,
    {
        if matches_at(s, t, i) {
            return Some(i);
        }
        i += 1;
    }
    None
}

/// The last position where `t` occurs in `s`.
pub fn find_last(s: &str, t: &str) -> (r: Option<usize>)
    ensures
        match r {
            Some(i) => last_index(s@, t@) == Some(i as int),
            None => last_index(s@, t@) is None,
        },
{
    let n = s.unicode_len();
    let m = t.unicode_len();
    if m > n {
        return None;
    }
    let mut i: usize = n - m;
    loop
        invariant
            n == s@.len(),
            m == t@.len(),
            i <= n - m,
            last_index(s@, t@) == last_upto(s@, t@, i as int),
        decreases i,
    {
        if matches_at(s, t, i) {
            return Some(i);
        }
        if i == 0 {
            assert(last_upto(s@, t@, -1) is None);
            return None;
        }
        i -= 1;
    }
}

/// Exact, character-by-character equality of two strings.
pub fn same_text(a: &str, b: &str) -> (r: bool)
    ensures
        r == (a@ == b@),
{
    let n = a.unicode_len();
    if n != b.unicode_len() {
        return false;
    }
    let mut k: usize = 0;
    while k < n
        invariant
            n == a@.len(),
            n == b@.len(),
            k <= n,
            forall|j: int| 0 <= j < k ==> a@[j] == b@[j],
        decreases n - k,
    {
        if a.get_char(k) != b.get_char(k) {
            return false;
        }
        k += 1;
    }
    assert(a@ =~= b@);
    true
}

/// Unicode whitespace (the `White_Space` property), which trimming drops.
pub open spec fn is_blank(c: char) -> bool {
    let n = c as u32;
    (0x9 <= n <= 0xD) || n == 0x20 || n == 0x85 || n == 0xA0 || n == 0x1680 || (0x2000 <= n
        <= 0x200A) || n == 0x2028 || n == 0x2029 || n == 0x202F || n == 0x205F || n == 0x3000
}

/// The first position at or after `i` that does not hold a blank.
pub open spec fn skip_blanks(s: Seq<char>, i: int) -> int
    decreases s.len() - i,
{
    if 0 <= i < s.len() && is_blank(s[i]) {
        skip_blanks(s, i + 1)
    } else {
        i
    }
}

/// The end of `s[lo..j]` once trailing blanks are dropped.
pub open spec fn drop_blanks(s: Seq<char>, lo: int, j: int) -> int
    decreases j - lo,
{
    if lo < j && is_blank(s[j - 1]) {
        drop_blanks(s, lo, j - 1)
    } else {
        j
    }
}

/// `s` without leading and trailing blanks.
pub open spec fn trimmed(s: Seq<char>) -> Seq<char> {
    let a = skip_blanks(s, 0);
    s.subrange(a, drop_blanks(s, a, s.len() as int))
}

fn blank(c: char) -> (r: bool)
    ensures
        r == is_blank(c),
{
    let n = c as u32;
    (0x9 <= n && n <= 0xD) || n == 0x20 || n == 0x85 || n == 0xA0 || n == 0x1680 || (0x2000 <= n
        && n <= 0x200A) || n == 0x2028 || n == 0x2029 || n == 0x202F || n == 0x205F || n == 0x3000
}

/// Drops leading and trailing blanks.
pub fn trim(s: &str) -> (r: String)
    ensures
        r@ == trimmed(s@),
{
    let n = s.unicode_len();
    let mut a: usize = 0;
    while a < n && blank(s.get_char(a))
        invariant
            n == s@.len(),
            a <= n,
            skip_blanks(s@, 0) == skip_blanks(s@, a as int),
        decreases n - a,
    {
        a += 1;
    }
    let mut b: usize = n;
    while b > a && blank(s.get_char(b - 1))
        invariant
            n == s@.len(),
            a <= b <= n,
            skip_blanks(s@, 0) == a,
            drop_blanks(s@, a as int, n as int) == drop_blanks(s@, a as int, b as int),
        decreases b,
    {
        b -= 1;
    }
    String::from_str(s.substring_char(a, b))
}

/// What stands in for a token in anything shown.
pub open spec fn placeholder() -> Seq<char> {
    seq!['[', 'R', 'E', 'D', 'A', 'C', 'T', 'E', 'D', ']']
}

/// `s` from position `i` on, with each occurrence of `t`, found from left to right,
/// replaced by `p`.
pub open spec fn replaced_from(s: Seq<char>, t: Seq<char>, p: Seq<char>, i: int) -> Seq<char>
    decreases s.len() - i,
{
    if i < 0 || i >= s.len() {
        Seq::empty()
    } else if t.len() > 0 && occurs_at(s, t, i) {
        p + replaced_from(s, t, p, i + t.len())
    } else {
        seq![s[i]] + replaced_from(s, t, p, i + 1)
    }
}

/// `s` with every occurrence of the token `t` replaced by the placeholder; an empty
/// token leaves `s` as it is.
pub open spec fn redacted(s: Seq<char>, t: Seq<char>) -> Seq<char> {
    if t.len() == 0 {
        s
    } else {
        replaced_from(s, t, placeholder(), 0)
    }
}

/// Replaces each occurrence of `token` in `message` by the placeholder.
pub fn redact(message: &str, token: &str) -> (r: String)
    ensures
        r@ == redacted(message@, token@),
{
    let n = message.unicode_len();
    let m = token.unicode_len();
    if m == 0 {
        return String::from_str(message);
    }
    let ghost s = message@;
    let ghost t = token@;
    let mut out = String::new();
    assert(out@ + replaced_from(s, t, placeholder(), 0) =~= replaced_from(s, t, placeholder(), 0));
    let mut i: usize = 0;
    while i < n
        invariant
            n == s.len(),
            s == message@,
            t == token@,
            m == t.len(),
            m > 0,
            i <= n,
            out@ + replaced_from(s, t, placeholder(), i as int) == replaced_from(s, t, placeholder(), 0),
        decreases n - i,
    {
        let ghost before = out@;
        if m <= n - i && matches_at(message, token, i) {
            let shown = "[REDACTED]";
            proof {
                reveal_strlit("[REDACTED]");
            }
            assert(shown@ =~= placeholder());
            out.append(shown);
            assert(out@ + replaced_from(s, t, placeholder(), i + m) =~= before + replaced_from(s, t, placeholder(), i as int));
            i += m;
        } else {
            let c = message.substring_char(i, i + 1);
            out.append(c);
            assert(c@ =~= seq![s[i as int]]);
            assert(out@ + replaced_from(s, t, placeholder(), i + 1) =~= before + replaced_from(s, t, placeholder(), i as int));
            i += 1;
        }
    }
    assert(out@ =~= out@ + replaced_from(s, t, placeholder(), i as int));
    out
}

/// The smaller of two integers.
pub open spec fn min_of(a: int, b: int) -> int {
    if a <= b {
        a
    } else {
        b
    }
}

/// The start of `p` matches `t` from some position after its first: a copy of `p` written
/// right after part of `t` could complete it.
pub open spec fn starts_within(t: Seq<char>, p: Seq<char>) -> bool {
    exists|i: int|
        1 <= i < t.len() && #[trigger] t.subrange(i, i + min_of(t.len() - i, p.len() as int))
            == p.subrange(0, min_of(t.len() - i, p.len() as int))
}

/// Some end of `p` begins `t` and leaves part of `t` to follow: text written right after a
/// copy of `p` could complete it.
pub open spec fn ends_within(t: Seq<char>, p: Seq<char>) -> bool {
    exists|q: int|
        0 <= q < p.len() && q + t.len() > p.len() && #[trigger] t.subrange(0, p.len() - q)
            == p.subrange(q, p.len() as int)
}

/// Output of `replaced_from` starts either with a verbatim copy of the input, or holds a
/// copy of `p` (cut at `k`) starting within its first `k` characters.
proof fn lemma_replaced_prefix(s: Seq<char>, t: Seq<char>, p: Seq<char>, i: int, k: int)
    requires
        0 <= i <= s.len(),
        t.len() > 0,
        p.len() > 0,
        0 <= k <= replaced_from(s, t, p, i).len(),
    ensures
        (i + k <= s.len() && replaced_from(s, t, p, i).subrange(0, k) == s.subrange(i, i + k))
            || exists|j: int|
            0 <= j < k && #[trigger] replaced_from(s, t, p, i).subrange(j, j + min_of(k - j, p.len() as int))
                == p.subrange(0, min_of(k - j, p.len() as int)),
    decreases s.len() - i,
{
    let r = replaced_from(s, t, p, i);
    if k == 0 {
        assert(r.subrange(0, 0) =~= s.subrange(i, i));
    } else if i == s.len() {
        assert(r.len() == 0);
    } else if occurs_at(s, t, i) {
        let rest = replaced_from(s, t, p, i + t.len());
        assert(r == p + rest);
        let c = min_of(k, p.len() as int);
        assert(r.subrange(0, c) =~= p.subrange(0, c));
        assert(r.subrange(0, 0 + min_of(k - 0, p.len() as int)) == p.subrange(0, min_of(k - 0, p.len() as int)));
    } else {
        let rest = replaced_from(s, t, p, i + 1);
        assert(r == seq![s[i]] + rest);
        lemma_replaced_prefix(s, t, p, i + 1, k - 1);
        if i + k <= s.len() && rest.subrange(0, k - 1) == s.subrange(i + 1, i + k) {
            assert forall|x: int| 0 <= x < k implies r.subrange(0, k)[x] == s.subrange(i, i + k)[x] by {
                if x > 0 {
                    assert(rest.subrange(0, k - 1)[x - 1] == s.subrange(i + 1, i + k)[x - 1]);
                }
            }
            assert(r.subrange(0, k) =~= s.subrange(i, i + k));
        } else {
            let j = choose|j: int|
                0 <= j < k - 1 && #[trigger] rest.subrange(j, j + min_of(k - 1 - j, p.len() as int)) == p.subrange(
                    0,
                    min_of(k - 1 - j, p.len() as int),
                );
            let c = min_of(k - 1 - j, p.len() as int);
            assert(r.subrange(j + 1, j + 1 + c) =~= rest.subrange(j, j + c));
            assert(r.subrange(j + 1, j + 1 + min_of(k - (j + 1), p.len() as int)) == p.subrange(
                0,
                min_of(k - (j + 1), p.len() as int),
            ));
        }
    }
}

proof fn lemma_replaced_hides(s: Seq<char>, t: Seq<char>, p: Seq<char>, i: int)
    requires
        0 <= i <= s.len(),
        t.len() > 0,
        p.len() > 0,
        !occurs_in(p, t),
        !starts_within(t, p),
        !ends_within(t, p),
    ensures
        !occurs_in(replaced_from(s, t, p, i), t),
    decreases s.len() - i,
{
    let r = replaced_from(s, t, p, i);
    let m = t.len() as int;
    if i == s.len() {
        assert(r.len() == 0);
    } else if occurs_at(s, t, i) {
        let rest = replaced_from(s, t, p, i + m);
        lemma_replaced_hides(s, t, p, i + m);
        assert(r == p + rest);
        assert forall|q: int| !occurs_at(r, t, q) by {
            if occurs_at(r, t, q) {
                if q >= p.len() {
                    assert(rest.subrange(q - p.len(), q - p.len() + m) =~= r.subrange(q, q + m));
                    assert(occurs_at(rest, t, q - p.len()));
                } else if q + m <= p.len() {
                    assert(p.subrange(q, q + m) =~= r.subrange(q, q + m));
                    assert(occurs_at(p, t, q));
                } else {
                    assert(t.subrange(0, p.len() - q) =~= p.subrange(q, p.len() as int));
                }
            }
        }
    } else {
        let rest = replaced_from(s, t, p, i + 1);
        lemma_replaced_hides(s, t, p, i + 1);
        assert(r == seq![s[i]] + rest);
        assert forall|q: int| !occurs_at(r, t, q) by {
            if occurs_at(r, t, q) {
                if q >= 1 {
                    assert(rest.subrange(q - 1, q - 1 + m) =~= r.subrange(q, q + m));
                    assert(occurs_at(rest, t, q - 1));
                } else {
                    lemma_replaced_prefix(s, t, p, i + 1, m - 1);
                    if i + m <= s.len() && rest.subrange(0, m - 1) == s.subrange(i + 1, i + m) {
                        assert forall|x: int| 0 <= x < m implies r.subrange(0, m)[x] == s.subrange(i, i + m)[x] by {
                            if x > 0 {
                                assert(rest.subrange(0, m - 1)[x - 1] == s.subrange(i + 1, i + m)[x - 1]);
                            }
                        }
                        assert(s.subrange(i, i + m) =~= r.subrange(0, m));
                    } else {
                        let j = choose|j: int|
                            0 <= j < m - 1 && #[trigger] rest.subrange(j, j + min_of(m - 1 - j, p.len() as int))
                                == p.subrange(0, min_of(m - 1 - j, p.len() as int));
                        let c = min_of(m - 1 - j, p.len() as int);
                        assert(t.subrange(j + 1, j + 1 + c) =~= rest.subrange(j, j + c));
                        assert(t.subrange(j + 1, j + 1 + min_of(m - (j + 1), p.len() as int))
                            == p.subrange(0, min_of(m - (j + 1), p.len() as int)));
                    }
                }
            }
        }
    }
}

/// A redacted message never shows the token, provided the token is not empty, is not a
/// part of the placeholder, and does not overlap a copy of the placeholder: neither does
/// the placeholder's start match the token from a later position, nor does an end of the
/// placeholder begin the token.
pub proof fn lemma_redaction_hides_token(message: Seq<char>, token: Seq<char>)
    requires
        token.len() > 0,
        !occurs_in(placeholder(), token),
        !starts_within(token, placeholder()),
        !ends_within(token, placeholder()),
    ensures
        !occurs_in(redacted(message, token), token),
{
    lemma_replaced_hides(message, token, placeholder(), 0);
}

} // verus!
