use vstd::prelude::*;
use vstd::string::*;

verus! {

// ---------------------------------------------------------------------------
// Specifications of the string operations the tool relies on
// ---------------------------------------------------------------------------

/// The characters of `s` before its first occurrence of `c`; all of `s` when
/// `c` does not occur (what `s.split(c).next()` yields).
pub open spec fn prefix_before(s: Seq<char>, c: char) -> Seq<char>
    decreases s.len(),
{
    if s.len() == 0 {
        s
    } else if s[0] == c {
        Seq::empty()
    } else {
        seq![s[0]] + prefix_before(s.drop_first(), c)
    }
}

/// The characters of `s` after its last occurrence of `c`; all of `s` when
/// `c` does not occur (what `s.split(c).last()` yields).
pub open spec fn after_last(s: Seq<char>, c: char) -> Seq<char>
    decreases s.len(),
{
    if s.len() == 0 {
        s
    } else if s.last() == c {
        Seq::empty()
    } else {
        after_last(s.drop_last(), c).push(s.last())
    }
}

/// `s` without its leading occurrences of `c`.
pub open spec fn trim_start(s: Seq<char>, c: char) -> Seq<char>
    decreases s.len(),
{
    if s.len() > 0 && s[0] == c {
        trim_start(s.drop_first(), c)
    } else {
        s
    }
}

/// `s` without its trailing occurrences of `c`.
pub open spec fn trim_end(s: Seq<char>, c: char) -> Seq<char>
    decreases s.len(),
{
    if s.len() > 0 && s.last() == c {
        trim_end(s.drop_last(), c)
    } else {
        s
    }
}

/// `s` without leading and trailing occurrences of `c` (`str::trim_matches`).
pub open spec fn trim_both(s: Seq<char>, c: char) -> Seq<char> {
    trim_end(trim_start(s, c), c)
}

/// `p` occurs in `s` starting at index `i`.
pub open spec fn occurs_at(s: Seq<char>, p: Seq<char>, i: int) -> bool {
    0 <= i && i + p.len() <= s.len() && s.subrange(i, i + p.len()) == p
}

/// `p` occurs somewhere in `s` (`str::contains`).
pub open spec fn contains_seq(s: Seq<char>, p: Seq<char>) -> bool {
    exists|i: int| occurs_at(s, p, i)
}

/// `s` with every occurrence of `p` removed, matched from left to right
/// without overlap (`s.replace(p, "")`).
pub open spec fn remove_all(s: Seq<char>, p: Seq<char>) -> Seq<char>
    decreases s.len(),
{
    if p.len() == 0 || s.len() < p.len() {
        s
    } else if s.subrange(0, p.len() as int) == p {
        remove_all(s.subrange(p.len() as int, s.len() as int), p)
    } else {
        seq![s[0]] + remove_all(s.drop_first(), p)
    }
}

/// The character of a decimal digit `d < 10`.
pub open spec fn digit_char(d: nat) -> char {
    (d + 48) as char
}

/// The decimal representation of `n`, without leading zeros (what
/// `n.to_string()` yields for an unsigned integer).
pub open spec fn decimal(n: nat) -> Seq<char>
    decreases n,
{
    if n < 10 {
        seq![digit_char(n)]
    } else {
        decimal(n / 10).push(digit_char(n % 10))
    }
}

/// The number that a string of decimal digits denotes.
pub open spec fn decimal_value(s: Seq<char>) -> int
    decreases s.len(),
{
    if s.len() == 0 {
        0
    } else {
        decimal_value(s.drop_last()) * 10 + (s.last() as int - 48)
    }
}

// ---------------------------------------------------------------------------
// Laws
// ---------------------------------------------------------------------------

/// A decimal representation reads back as the number it was made from.
pub proof fn lemma_decimal_value(n: nat)
    ensures
        decimal_value(decimal(n)) == n,
    decreases n,
{
    if n >= 10 {
        lemma_decimal_value(n / 10);
        let d = decimal(n / 10).push(digit_char(n % 10));
        assert(d.drop_last() =~= decimal(n / 10));
        assert(d.last() as int == n % 10 + 48);
        assert(decimal(n) == d);
        assert(decimal_value(d) == decimal_value(decimal(n / 10)) * 10 + (n % 10));
        assert((n / 10) * 10 + n % 10 == n) by (nonlinear_arith);
    } else {
        assert(decimal(n).drop_last() =~= Seq::<char>::empty());
        assert(decimal(n).last() as int == n + 48);
        assert(decimal_value(decimal(n).drop_last()) == 0);
    }
}

/// A decimal representation is made of the digits `0` to `9`, starts with a
/// digit other than `0` unless it is `0` itself, and reads back as the number
/// (most significant digit first).
pub proof fn lemma_decimal_digits(n: nat)
    ensures
        decimal(n).len() > 0,
        forall|i: int| 0 <= i < decimal(n).len() ==> '0' <= #[trigger] decimal(n)[i] <= '9',
        n > 0 ==> decimal(n)[0] != '0',
        n == 0 ==> decimal(n) == seq!['0'],
        decimal(n).last() as int - 48 == n % 10,
        n >= 10 ==> decimal(n).drop_last() == decimal(n / 10),
    decreases n,
{
    if n >= 10 {
        lemma_decimal_digits(n / 10);
        let d = decimal(n);
        assert(d.drop_last() =~= decimal(n / 10));
        assert forall|i: int| 0 <= i < d.len() implies '0' <= #[trigger] d[i] <= '9' by {
            if i < d.len() - 1 {
                assert(d[i] == decimal(n / 10)[i]);
            }
        }
        assert(d[0] == decimal(n / 10)[0]);
    }
}

/// Distinct numbers have distinct decimal representations.
pub proof fn lemma_decimal_injective(a: nat, b: nat)
    requires
        a != b,
    ensures
        decimal(a) != decimal(b),
{
    lemma_decimal_value(a);
    lemma_decimal_value(b);
}

/// The part before the first `c` starts `s`, holds no `c`, and is all of
/// `s` or is followed in `s` by a `c`.
pub proof fn lemma_prefix_before_is_first_segment(s: Seq<char>, c: char)
    ensures
        ({
            let p = prefix_before(s, c);
            &&& p.len() <= s.len()
            &&& s.subrange(0, p.len() as int) == p
            &&& forall|i: int| 0 <= i < p.len() ==> p[i] != c
            &&& p.len() == s.len() || s[p.len() as int] == c
        }),
    decreases s.len(),
{
    if s.len() > 0 && s[0] != c {
        lemma_prefix_before_is_first_segment(s.drop_first(), c);
        let q = prefix_before(s.drop_first(), c);
        let p = prefix_before(s, c);
        assert(p =~= seq![s[0]] + q);
        assert(s.subrange(0, p.len() as int) =~= p) by {
            assert(s.drop_first().subrange(0, q.len() as int) == q);
            assert forall|i: int| 0 <= i < p.len() implies s.subrange(0, p.len() as int)[i] == p[i] by {
                if i > 0 {
                    assert(s.drop_first().subrange(0, q.len() as int)[i - 1] == q[i - 1]);
                }
            }
        }
        assert forall|i: int| 0 <= i < p.len() implies p[i] != c by {
            if i > 0 {
                assert(p[i] == q[i - 1]);
            }
        }
        if p.len() < s.len() {
            assert(s[p.len() as int] == s.drop_first()[q.len() as int]);
        }
    } else if s.len() > 0 {
        assert(s.subrange(0, 0) =~= Seq::<char>::empty());
    } else {
        assert(s.subrange(0, 0) =~= s);
    }
}

/// The part after the last `c` ends `s`, holds no `c`, and is all of `s` or
/// is preceded in `s` by a `c`.
pub proof fn lemma_after_last_is_last_segment(s: Seq<char>, c: char)
    ensures
        ({
            let a = after_last(s, c);
            &&& a.len() <= s.len()
            &&& s.subrange(s.len() - a.len(), s.len() as int) == a
            &&& forall|i: int| 0 <= i < a.len() ==> a[i] != c
            &&& a.len() == s.len() || s[s.len() - a.len() - 1] == c
        }),
    decreases s.len(),
{
    if s.len() > 0 && s.last() != c {
        let t = s.drop_last();
        lemma_after_last_is_last_segment(t, c);
        let b = after_last(t, c);
        let a = after_last(s, c);
        assert(a == b.push(s.last()));
        assert(s.subrange(s.len() - a.len(), s.len() as int) =~= a) by {
            assert(t.subrange(t.len() - b.len(), t.len() as int) == b);
            assert forall|i: int| 0 <= i < a.len() implies s.subrange(
                s.len() - a.len(),
                s.len() as int,
            )[i] == a[i] by {
                if i < b.len() {
                    assert(t.subrange(t.len() - b.len(), t.len() as int)[i] == b[i]);
                }
            }
        }
        assert forall|i: int| 0 <= i < a.len() implies a[i] != c by {
            if i < b.len() {
                assert(a[i] == b[i]);
            }
        }
        if a.len() < s.len() {
            assert(s[s.len() - a.len() - 1] == t[t.len() - b.len() - 1]);
        }
    } else if s.len() > 0 {
        assert(s.subrange(s.len() as int, s.len() as int) =~= after_last(s, c));
    } else {
        assert(s.subrange(0, 0) =~= s);
    }
}

/// Trimming `c` removes a run of `c` from each end and nothing else: the
/// result is a stretch of `s` with only `c` before and after it, and it
/// neither starts nor ends with `c`.
pub proof fn lemma_trim_both_strips_runs(s: Seq<char>, c: char)
    ensures
        exists|i: int, j: int|
            #![trigger s.subrange(i, j)]
            0 <= i <= j <= s.len() && trim_both(s, c) == s.subrange(i, j) && (forall|k: int|
                0 <= k < i ==> s[k] == c) && (forall|k: int| j <= k < s.len() ==> s[k] == c),
        trim_both(s, c).len() == 0 || (trim_both(s, c)[0] != c && trim_both(s, c).last() != c),
{
    let i = lemma_trim_start_run(s, c);
    let u = trim_start(s, c);
    let j = lemma_trim_end_run(u, c);
    assert(trim_both(s, c) == u.subrange(0, j));
    assert(u.subrange(0, j) =~= s.subrange(i, i + j));
    assert forall|k: int| i + j <= k < s.len() implies s[k] == c by {
        assert(s[k] == u[k - i]);
    }
    assert(trim_both(s, c) == s.subrange(i, i + j));
    if j > 0 && u[0] == c {
        assert(false);
    }
}

proof fn lemma_trim_start_run(s: Seq<char>, c: char) -> (i: int)
    ensures
        0 <= i <= s.len(),
        trim_start(s, c) == s.subrange(i, s.len() as int),
        forall|k: int| 0 <= k < i ==> s[k] == c,
        i == s.len() || s[i] != c,
    decreases s.len(),
{
    if s.len() > 0 && s[0] == c {
        let i = lemma_trim_start_run(s.drop_first(), c);
        assert(s.drop_first().subrange(i, s.len() - 1) =~= s.subrange(i + 1, s.len() as int));
        assert forall|k: int| 0 <= k < i + 1 implies s[k] == c by {
            if k > 0 {
                assert(s[k] == s.drop_first()[k - 1]);
            }
        }
        i + 1
    } else {
        assert(s.subrange(0, s.len() as int) =~= s);
        0
    }
}

proof fn lemma_trim_end_run(s: Seq<char>, c: char) -> (j: int)
    ensures
        0 <= j <= s.len(),
        trim_end(s, c) == s.subrange(0, j),
        forall|k: int| j <= k < s.len() ==> s[k] == c,
        j == 0 || s[j - 1] != c,
    decreases s.len(),
{
    if s.len() > 0 && s.last() == c {
        let j = lemma_trim_end_run(s.drop_last(), c);
        assert(s.drop_last().subrange(0, j) =~= s.subrange(0, j));
        assert forall|k: int| j <= k < s.len() implies s[k] == c by {
            if k < s.len() - 1 {
                assert(s[k] == s.drop_last()[k]);
            }
        }
        j
    } else {
        assert(s.subrange(0, s.len() as int) =~= s);
        s.len() as int
    }
}

// ---------------------------------------------------------------------------
// Executable operations
// ---------------------------------------------------------------------------

/// `String::push` of std: appends one character.
#[verifier::external_body]
pub(crate) fn push_char(s: &mut String, c: char)
    ensures
        final(s)@ == old(s)@.push(c),
{
    s.push(c);
}

/// Appends `t` to `s`.
pub(crate) fn push_text(s: &mut String, t: &str)
    ensures
        final(s)@ == old(s)@ + t@,
{
    s.append(t);
}

/// A fresh `String` holding `t`.
pub(crate) fn owned(t: &str) -> (s: String)
    ensures
        s@ == t@,
{
    t.to_owned()
}

/// The characters of `s`, one per element.
pub fn chars_of(s: &str) -> (v: Vec<char>)
    ensures
        v@ == s@,
{
    let n = s.unicode_len();
    let mut v: Vec<char> = Vec::new();
    let mut i: usize = 0;
    while i < n
        invariant
            n == s@.len(),
            i <= n,
            v@ == s@.subrange(0, i as int),
        decreases n - i,
    {
        let c = s.get_char(i);
        v.push(c);
        i = i + 1;
        assert(v@ =~= s@.subrange(0, i as int));
    }
    assert(v@ =~= s@);
    v
}

/// The characters `v[from..to]` as a `String`.
pub(crate) fn string_of_range(v: &Vec<char>, from: usize, to: usize) -> (s: String)
    requires
        from <= to <= v@.len(),
    ensures
        s@ == v@.subrange(from as int, to as int),
{
    let mut s = String::new();
    let mut i = from;
    while i < to
        invariant
            from <= i <= to,
            to <= v@.len(),
            s@ == v@.subrange(from as int, i as int),
        decreases to - i,
    {
        push_char(&mut s, v[i]);
        i = i + 1;
        assert(s@ =~= v@.subrange(from as int, i as int));
    }
    s
}

/// The part of `s` before the first `c` (all of `s` when there is none).
pub fn prefix_before_char(s: &str, c: char) -> (r: String)
    ensures
        r@ == prefix_before(s@, c),
{
    let v = chars_of(s);
    let n = v.len();
    let mut i: usize = 0;
    assert(v@.subrange(0, n as int) =~= v@);
    assert(v@.subrange(0, 0) =~= Seq::<char>::empty());
    while i < n && v[i] != c
        invariant
            n == v@.len(),
            v@ == s@,
            i <= n,
            prefix_before(s@, c) == v@.subrange(0, i as int) + prefix_before(
                v@.subrange(i as int, n as int),
                c,
            ),
        decreases n - i,
    {
        let ghost rest = v@.subrange(i as int, n as int);
        assert(rest.drop_first() =~= v@.subrange(i + 1, n as int));
        assert(v@.subrange(0, i + 1) =~= v@.subrange(0, i as int) + seq![v@[i as int]]);
        i = i + 1;
    }
    string_of_range(&v, 0, i)
}

/// The part of `s` after the last `c` (all of `s` when there is none).
pub fn segment_after_last(s: &str, c: char) -> (r: String)
    ensures
        r@ == after_last(s@, c),
{
    let v = chars_of(s);
    let n = v.len();
    let mut j: usize = n;
    assert(v@.subrange(0, n as int) =~= v@);
    assert(v@.subrange(n as int, n as int) =~= Seq::<char>::empty());
    while j > 0 && v[j - 1] != c
        invariant
            n == v@.len(),
            v@ == s@,
            j <= n,
            after_last(s@, c) == after_last(v@.subrange(0, j as int), c) + v@.subrange(
                j as int,
                n as int,
            ),
        decreases j,
    {
        let ghost front = v@.subrange(0, j as int);
        assert(front.drop_last() =~= v@.subrange(0, j - 1));
        assert(v@.subrange(j - 1, n as int) =~= seq![v@[j - 1]] + v@.subrange(j as int, n as int));
        j = j - 1;
    }
    assert(j > 0 ==> v@.subrange(0, j as int).last() == c);
    string_of_range(&v, j, n)
}

/// `s` without leading and trailing `c` characters.
pub fn trim_char(s: &str, c: char) -> (r: String)
    ensures
        r@ == trim_both(s@, c),
{
    let v = chars_of(s);
    let n = v.len();
    let mut i: usize = 0;
    assert(v@.subrange(0, n as int) =~= v@);
    while i < n && v[i] == c
        invariant
            n == v@.len(),
            v@ == s@,
            i <= n,
            trim_start(s@, c) == trim_start(v@.subrange(i as int, n as int), c),
        decreases n - i,
    {
        assert(v@.subrange(i as int, n as int).drop_first() =~= v@.subrange(i + 1, n as int));
        i = i + 1;
    }
    let mut j: usize = n;
    while j > i && v[j - 1] == c
        invariant
            n == v@.len(),
            i <= j <= n,
            trim_start(s@, c) == v@.subrange(i as int, n as int),
            trim_both(s@, c) == trim_end(v@.subrange(i as int, j as int), c),
        decreases j,
    {
        assert(v@.subrange(i as int, j as int).drop_last() =~= v@.subrange(i as int, j - 1));
        j = j - 1;
    }
    string_of_range(&v, i, j)
}

/// Whether `p` occurs in `v` starting at `i`.
pub(crate) fn occurs_at_exec(v: &Vec<char>, p: &Vec<char>, i: usize) -> (b: bool)
    ensures
        b == occurs_at(v@, p@, i as int),
{
    let vl = v.len();
    if i > vl || p.len() > vl - i {
        return false;
    }
    let mut k: usize = 0;
    while k < p.len()
        invariant
            vl == v@.len(),
            i + p@.len() <= v@.len(),
            k <= p@.len(),
            forall|m: int| 0 <= m < k ==> v@[i + m] == p@[m],
        decreases p@.len() - k,
    {
        if v[i + k] != p[k] {
            assert(v@.subrange(i as int, i + p@.len())[k as int] != p@[k as int]);
            return false;
        }
        k = k + 1;
    }
    assert(v@.subrange(i as int, i + p@.len()) =~= p@);
    true
}

/// Whether `p` occurs in `s`.
pub fn contains_str(s: &str, p: &str) -> (b: bool)
    ensures
        b == contains_seq(s@, p@),
{
    let v = chars_of(s);
    let w = chars_of(p);
    let n = v.len();
    let mut i: usize = 0;
    while i < n
        invariant
            n == v@.len(),
            i <= n,
            v@ == s@,
            w@ == p@,
            forall|j: int| 0 <= j < i ==> !occurs_at(s@, p@, j),
        decreases n - i,
    {
        if occurs_at_exec(&v, &w, i) {
            return true;
        }
        i = i + 1;
    }
    if occurs_at_exec(&v, &w, n) {
        return true;
    }
    assert forall|j: int| !occurs_at(s@, p@, j) by {
        if 0 <= j && j < n {
        }
    }
    false
}

/// `s` with every occurrence of `p` removed, left to right.
pub fn remove_all_str(s: &str, p: &str) -> (r: String)
    ensures
        r@ == remove_all(s@, p@),
{
    let v = chars_of(s);
    let w = chars_of(p);
    let n = v.len();
    if w.len() == 0 {
        return owned(s);
    }
    let mut out = String::new();
    let mut i: usize = 0;
    assert(v@.subrange(0, n as int) =~= v@);
    while i < n
        invariant
            n == v@.len(),
            v@ == s@,
            w@ == p@,
            w@.len() > 0,
            i <= n,
            remove_all(s@, p@) == out@ + remove_all(v@.subrange(i as int, n as int), p@),
        decreases n - i,
    {
        let ghost rest = v@.subrange(i as int, n as int);
        if occurs_at_exec(&v, &w, i) {
            assert(rest.subrange(0, p@.len() as int) =~= v@.subrange(i as int, i + p@.len()));
            assert(rest.subrange(p@.len() as int, rest.len() as int) =~= v@.subrange(
                i + p@.len(),
                n as int,
            ));
            i = i + w.len();
        } else {
            assert(rest.len() >= p@.len() ==> rest.subrange(0, p@.len() as int) =~= v@.subrange(
                i as int,
                i + p@.len(),
            ));
            assert(rest.drop_first() =~= v@.subrange(i + 1, n as int));
            push_char(&mut out, v[i]);
            i = i + 1;
            assert(out@ + remove_all(v@.subrange(i as int, n as int), p@) =~= out@.drop_last()
                + (seq![rest[0]] + remove_all(rest.drop_first(), p@)));
        }
    }
    assert(v@.subrange(n as int, n as int) =~= Seq::<char>::empty());
    out
}

/// Whether `a` and `b` hold the same characters.
pub fn same_text(a: &str, b: &str) -> (r: bool)
    ensures
        r == (a@ == b@),
{
    let v = chars_of(a);
    let w = chars_of(b);
    if v.len() != w.len() {
        return false;
    }
    let n = v.len();
    let mut i: usize = 0;
    while i < n
        invariant
            n == v@.len(),
            n == w@.len(),
            v@ == a@,
            w@ == b@,
            i <= n,
            forall|j: int| 0 <= j < i ==> v@[j] == w@[j],
        decreases n - i,
    {
        if v[i] != w[i] {
            assert(v@[i as int] != w@[i as int]);
            return false;
        }
        i = i + 1;
    }
    assert(v@ =~= w@);
    true
}

/// Appends the decimal representation of `n` to `s`.
fn push_decimal(s: &mut String, n: u64)
    ensures
        final(s)@ == old(s)@ + decimal(n as nat),
    decreases n,
{
    if n >= 10 {
        push_decimal(s, n / 10);
    }
    let d = (n % 10) as u8;
    let c = (48u8 + d) as char;
    push_char(s, c);
    assert(decimal(n as nat) =~= if n < 10 {
        seq![digit_char(n as nat)]
    } else {
        decimal((n / 10) as nat).push(digit_char((n % 10) as nat))
    });
}

/// The decimal representation of `n`.
pub fn decimal_string_u32(n: u32) -> (r: String)
    ensures
        r@ == decimal(n as nat),
{
    decimal_string(n as u64)
}

/// The decimal representation of `n`.
pub fn decimal_string(n: u64) -> (r: String)
    ensures
        r@ == decimal(n as nat),
{
    let mut s = String::new();
    push_decimal(&mut s, n);
    assert(s@ =~= decimal(n as nat));
    s
}

} // verus!
