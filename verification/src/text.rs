//! Verified text utilities: separator splitting with empty-token collapsing,
//! decimal `u64` parsing and printing, string equality, and substring search.
//! All contracts are stated over `Seq<char>` views.

use vstd::prelude::*;

verus! {

/// Splits `s` on `sep`, keeping empty pieces: the result of Rust's
/// `split(sep)`. The split of the empty text is one empty piece.
pub open spec fn split_sep(s: Seq<char>, sep: char) -> Seq<Seq<char>>
    decreases s.len(),
{
    if s.len() == 0 {
        seq![Seq::<char>::empty()]
    } else {
        let prev = split_sep(s.drop_last(), sep);
        if s.last() == sep {
            prev.push(Seq::<char>::empty())
        } else {
            prev.update(prev.len() - 1, prev.last().push(s.last()))
        }
    }
}

/// Drops the empty pieces of a split, keeping the order of the rest.
pub open spec fn drop_empty(ts: Seq<Seq<char>>) -> Seq<Seq<char>>
    decreases ts.len(),
{
    if ts.len() == 0 {
        Seq::empty()
    } else {
        let rest = drop_empty(ts.drop_last());
        if ts.last().len() > 0 {
            rest.push(ts.last())
        } else {
            rest
        }
    }
}

/// The non-empty pieces of `s` split on `sep`, in order: repeated separators
/// collapse, and leading or trailing separators add nothing.
pub open spec fn fields_of(s: Seq<char>, sep: char) -> Seq<Seq<char>> {
    drop_empty(split_sep(s, sep))
}

proof fn lemma_split_sep_nonempty(s: Seq<char>, sep: char)
    ensures
        split_sep(s, sep).len() >= 1,
    decreases s.len(),
{
    if s.len() > 0 {
        lemma_split_sep_nonempty(s.drop_last(), sep);
    }
}

/// Extends a verified split by one character of the text.
proof fn lemma_split_sep_step(s: Seq<char>, sep: char, i: int)
    requires
        0 <= i < s.len(),
    ensures
        s[i] == sep ==> split_sep(s.take(i + 1), sep) == split_sep(s.take(i), sep).push(
            Seq::<char>::empty(),
        ),
        s[i] != sep ==> split_sep(s.take(i + 1), sep) == split_sep(s.take(i), sep).update(
            split_sep(s.take(i), sep).len() - 1,
            split_sep(s.take(i), sep).last().push(s[i]),
        ),
{
    assert(s.take(i + 1).drop_last() =~= s.take(i));
    assert(s.take(i + 1).last() == s[i]);
}

/// True of the ASCII decimal digits.
pub open spec fn is_digit(c: char) -> bool {
    '0' <= c && c <= '9'
}

/// The value of one decimal digit.
pub open spec fn digit_val(c: char) -> int {
    c as int - '0' as int
}

/// The value of `s` read as a decimal numeral, most significant digit first.
pub open spec fn dec_val(s: Seq<char>) -> int
    decreases s.len(),
{
    if s.len() == 0 {
        0
    } else {
        dec_val(s.drop_last()) * 10 + digit_val(s.last())
    }
}

/// True of the texts that Rust parses as a `u64`: non-empty, digits only,
/// and a value no greater than `u64::MAX`.
pub open spec fn is_u64_numeral(s: Seq<char>) -> bool {
    &&& s.len() > 0
    &&& (forall|k: int| 0 <= k < s.len() ==> is_digit(#[trigger] s[k]))
    &&& dec_val(s) <= u64::MAX
}

/// True when `s` is the canonical decimal numeral of `n`: no leading zero
/// except for zero itself, which is the single digit `0`.
pub open spec fn decimal_repr(n: int, s: Seq<char>) -> bool {
    &&& is_u64_numeral(s)
    &&& dec_val(s) == n
    &&& (s.len() > 1 ==> s[0] != '0')
}

proof fn lemma_dec_val_nonneg(s: Seq<char>)
    requires
        forall|k: int| 0 <= k < s.len() ==> is_digit(#[trigger] s[k]),
    ensures
        dec_val(s) >= 0,
    decreases s.len(),
{
    if s.len() > 0 {
        lemma_dec_val_nonneg(s.drop_last());
    }
}

/// A numeral is at least as large as the value of any of its prefixes.
proof fn lemma_dec_val_prefix(s: Seq<char>, m: int)
    requires
        0 <= m <= s.len(),
        forall|k: int| 0 <= k < s.len() ==> is_digit(#[trigger] s[k]),
    ensures
        dec_val(s) >= dec_val(s.take(m)),
    decreases s.len() - m,
{
    if m < s.len() {
        assert(s.take(m + 1).drop_last() =~= s.take(m));
        lemma_dec_val_nonneg(s.take(m));
        lemma_dec_val_prefix(s, m + 1);
    } else {
        assert(s.take(m) =~= s);
    }
}

/// Parses `s` as a decimal `u64`: digits only, no sign, no other characters,
/// rejecting values above `u64::MAX`.
pub fn parse_u64(s: &str) -> (r: Option<u64>)
    ensures
        r is Some <==> is_u64_numeral(s@),
        r is Some ==> r->Some_0 as int == dec_val(s@),
{
    let n: usize = s.unicode_len();
    if n == 0 {
        return None;
    }
    let mut acc: u64 = 0;
    let mut i: usize = 0;
    proof {
        assert(s@.take(0) =~= Seq::<char>::empty());
    }
    while i < n
        invariant
            n == s@.len(),
            0 <= i <= n,
            forall|k: int| 0 <= k < i ==> is_digit(#[trigger] s@[k]),
            acc as int == dec_val(s@.take(i as int)),
        decreases n - i,
    {
        let c = s.get_char(i);
        if c < '0' || c > '9' {
            return None;
        }
        let d: u64 = (c as u32 - 48) as u64;
        proof {
            assert(s@.take(i + 1).drop_last() =~= s@.take(i as int));
            assert(dec_val(s@.take(i + 1)) == acc as int * 10 + d as int);
        }
        if acc > u64::MAX / 10 || (acc == u64::MAX / 10 && d > 5) {
            proof {
                if is_u64_numeral(s@) {
                    lemma_dec_val_prefix(s@, i + 1);
                }
            }
            return None;
        }
        acc = acc * 10 + d;
        i = i + 1;
    }
    proof {
        assert(s@.take(n as int) =~= s@);
    }
    Some(acc)
}

/// One decimal digit as text.
fn digit_str(d: u64) -> (r: &'static str)
    requires
        d < 10,
    ensures
        r@.len() == 1,
        is_digit(r@[0]),
        digit_val(r@[0]) == d as int,
{
    proof {
        reveal_strlit("0");
        reveal_strlit("1");
        reveal_strlit("2");
        reveal_strlit("3");
        reveal_strlit("4");
        reveal_strlit("5");
        reveal_strlit("6");
        reveal_strlit("7");
        reveal_strlit("8");
        reveal_strlit("9");
    }
    match d {
        0 => "0",
        1 => "1",
        2 => "2",
        3 => "3",
        4 => "4",
        5 => "5",
        6 => "6",
        7 => "7",
        8 => "8",
        _ => "9",
    }
}

/// Prints `n` as its canonical decimal numeral.
pub fn u64_to_string(n: u64) -> (r: String)
    ensures
        decimal_repr(n as int, r@),
    decreases n,
{
    let d: u64 = n % 10;
    let ds = digit_str(d);
    if n < 10 {
        let r = ds.to_owned();
        proof {
            assert(r@.drop_last() =~= Seq::<char>::empty());
            assert(dec_val(Seq::<char>::empty()) == 0);
            assert(dec_val(r@) == d as int);
        }
        r
    } else {
        let prefix = u64_to_string(n / 10);
        let r = prefix.concat(ds);
        proof {
            assert(r@.drop_last() =~= prefix@);
            assert(r@.last() == ds@[0]);
            assert(dec_val(r@) == dec_val(prefix@) * 10 + d as int);
            assert(r@[0] == prefix@[0]);
            if prefix@.len() == 1 {
                assert(prefix@.drop_last() =~= Seq::<char>::empty());
                assert(dec_val(Seq::<char>::empty()) == 0);
                assert(dec_val(prefix@) == digit_val(prefix@[0]));
                assert(digit_val('0') == 0);
                assert(prefix@[0] != '0');
            }
        }
        r
    }
}

/// Ten to the `k`.
spec fn pow10(k: nat) -> int
    decreases k,
{
    if k == 0 {
        1
    } else {
        10 * pow10((k - 1) as nat)
    }
}

proof fn lemma_pow10_pos(k: nat)
    ensures
        pow10(k) >= 1,
    decreases k,
{
    if k > 0 {
        lemma_pow10_pos((k - 1) as nat);
    }
}

proof fn lemma_pow10_mono(a: nat, b: nat)
    requires
        a <= b,
    ensures
        pow10(a) <= pow10(b),
    decreases b,
{
    if a < b {
        lemma_pow10_mono(a, (b - 1) as nat);
        lemma_pow10_pos((b - 1) as nat);
    }
}

/// A digit sequence's value stays below ten to its length.
proof fn lemma_dec_val_upper(s: Seq<char>)
    requires
        forall|k: int| 0 <= k < s.len() ==> is_digit(#[trigger] s[k]),
    ensures
        dec_val(s) < pow10(s.len() as nat),
    decreases s.len(),
{
    if s.len() > 0 {
        lemma_dec_val_upper(s.drop_last());
    }
}

/// Without a leading zero, a digit sequence's value reaches ten to one less
/// than its length.
proof fn lemma_dec_val_lower(s: Seq<char>)
    requires
        s.len() >= 1,
        forall|k: int| 0 <= k < s.len() ==> is_digit(#[trigger] s[k]),
        s[0] != '0',
    ensures
        dec_val(s) >= pow10((s.len() - 1) as nat),
    decreases s.len(),
{
    if s.len() == 1 {
        assert(s.drop_last() =~= Seq::<char>::empty());
        assert(dec_val(Seq::<char>::empty()) == 0);
        assert(digit_val(s[0]) >= 1);
    } else {
        lemma_dec_val_lower(s.drop_last());
    }
}

/// Digit sequences of one length and one value are equal.
proof fn lemma_digit_seq_unique(s1: Seq<char>, s2: Seq<char>)
    requires
        s1.len() == s2.len(),
        forall|k: int| 0 <= k < s1.len() ==> is_digit(#[trigger] s1[k]),
        forall|k: int| 0 <= k < s2.len() ==> is_digit(#[trigger] s2[k]),
        dec_val(s1) == dec_val(s2),
    ensures
        s1 == s2,
    decreases s1.len(),
{
    if s1.len() == 0 {
        assert(s1 =~= s2);
    } else {
        lemma_dec_val_nonneg(s1.drop_last());
        lemma_dec_val_nonneg(s2.drop_last());
        assert(digit_val(s1.last()) == digit_val(s2.last()));
        assert(s1.last() == s2.last());
        lemma_digit_seq_unique(s1.drop_last(), s2.drop_last());
        assert forall|k: int| 0 <= k < s1.len() implies s1[k] == s2[k] by {
            if k < s1.len() - 1 {
                assert(s1.drop_last()[k] == s2.drop_last()[k]);
            }
        }
        assert(s1 =~= s2);
    }
}

/// A value has exactly one canonical decimal numeral, so any contract that
/// names one names it uniquely.
pub proof fn lemma_decimal_repr_unique(n: int, s1: Seq<char>, s2: Seq<char>)
    requires
        decimal_repr(n, s1),
        decimal_repr(n, s2),
    ensures
        s1 == s2,
{
    if s1.len() != s2.len() {
        let (a, b) = if s1.len() < s2.len() {
            (s1, s2)
        } else {
            (s2, s1)
        };
        assert(b.len() > 1);
        lemma_dec_val_upper(a);
        lemma_dec_val_lower(b);
        lemma_pow10_mono(a.len() as nat, (b.len() - 1) as nat);
        assert(false);
    }
    lemma_digit_seq_unique(s1, s2);
}

/// True when `needle` occurs in `hay` starting at position `i`.
pub open spec fn occurs_at(hay: Seq<char>, needle: Seq<char>, i: int) -> bool {
    0 <= i && i + needle.len() <= hay.len() && hay.subrange(i, i + needle.len()) == needle
}

/// True when `needle` occurs somewhere in `hay`.
pub open spec fn contains_seq(hay: Seq<char>, needle: Seq<char>) -> bool {
    exists|i: int| occurs_at(hay, needle, i)
}

/// Character-for-character string equality.
pub fn str_eq(a: &str, b: &str) -> (r: bool)
    ensures
        r == (a@ == b@),
{
    let n: usize = a.unicode_len();
    if n != b.unicode_len() {
        return false;
    }
    let mut k: usize = 0;
    while k < n
        invariant
            n == a@.len(),
            n == b@.len(),
            0 <= k <= n,
            forall|t: int| 0 <= t < k ==> a@[t] == b@[t],
        decreases n - k,
    {
        if a.get_char(k) != b.get_char(k) {
            return false;
        }
        k = k + 1;
    }
    proof {
        assert(a@ =~= b@);
    }
    true
}

/// Substring search: true exactly when `needle` occurs in `hay`.
pub fn str_contains(hay: &str, needle: &str) -> (r: bool)
    ensures
        r == contains_seq(hay@, needle@),
{
    let hn: usize = hay.unicode_len();
    let nn: usize = needle.unicode_len();
    if nn > hn {
        return false;
    }
    if nn == 0 {
        proof {
            assert(hay@.subrange(0, 0) =~= needle@);
            assert(occurs_at(hay@, needle@, 0));
        }
        return true;
    }
    let mut i: usize = 0;
    while i <= hn - nn
        invariant
            hn == hay@.len(),
            nn == needle@.len(),
            1 <= nn <= hn,
            0 <= i <= hn - nn + 1,
            forall|k: int| 0 <= k < i ==> !occurs_at(hay@, needle@, k),
        decreases hn - i,
    {
        let mut j: usize = 0;
        let mut mismatch = false;
        while j < nn
            invariant
                hn == hay@.len(),
                nn == needle@.len(),
                nn <= hn,
                0 <= i <= hn - nn,
                0 <= j <= nn,
                !mismatch ==> forall|t: int| 0 <= t < j ==> hay@[i + t] == needle@[t],
                mismatch ==> !occurs_at(hay@, needle@, i as int),
            decreases nn - j,
        {
            if hay.get_char(i + j) != needle.get_char(j) {
                proof {
                    if occurs_at(hay@, needle@, i as int) {
                        assert(hay@.subrange(i as int, i + nn)[j as int] == hay@[i + j]);
                    }
                }
                mismatch = true;
                j = nn;
            } else {
                j = j + 1;
            }
        }
        if !mismatch {
            proof {
                assert(hay@.subrange(i as int, i + nn) =~= needle@);
                assert(occurs_at(hay@, needle@, i as int));
            }
            return true;
        }
        i = i + 1;
    }
    proof {
        assert forall|k: int| !occurs_at(hay@, needle@, k) by {
            if 0 <= k && k + needle@.len() <= hay@.len() {
                assert(k < i);
            }
        }
    }
    false
}

/// The views of a vector of strings.
pub open spec fn views_of(ts: Seq<String>) -> Seq<Seq<char>> {
    ts.map_values(|t: String| t@)
}

/// Splits `s` on the separator character and returns the non-empty pieces in
/// order; repeated, leading and trailing separators are collapsed.
pub fn split_nonempty(s: &str, sep: char) -> (r: Vec<String>)
    ensures
        views_of(r@) == fields_of(s@, sep),
{
    let n: usize = s.unicode_len();
    let mut toks: Vec<String> = Vec::new();
    let mut i: usize = 0;
    proof {
        assert(s@.take(0) =~= Seq::<char>::empty());
        let x0 = split_sep(s@.take(0), sep);
        assert(x0 =~= seq![Seq::<char>::empty()]);
        assert(x0.drop_last() =~= Seq::<Seq<char>>::empty());
        assert(drop_empty(x0.drop_last()) =~= Seq::<Seq<char>>::empty());
        assert(drop_empty(x0) =~= Seq::<Seq<char>>::empty());
        assert(views_of(toks@) =~= fields_of(s@.take(0), sep));
    }
    while i < n
        invariant
            n == s@.len(),
            0 <= i <= n,
            i == 0 || i == n || s@[i - 1] == sep,
            views_of(toks@) == fields_of(s@.take(i as int), sep),
        decreases n - i,
    {
        proof {
            lemma_split_sep_nonempty(s@.take(i as int), sep);
            // At the head of the loop the pending piece of the split is empty.
            if i > 0 {
                assert(s@.take(i as int).last() == s@[i - 1]);
            }
            assert(split_sep(s@.take(i as int), sep).last() =~= Seq::<char>::empty());
        }
        let c = s.get_char(i);
        if c == sep {
            proof {
                lemma_split_sep_step(s@, sep, i as int);
                let x = split_sep(s@.take(i as int), sep);
                assert(x.push(Seq::<char>::empty()).drop_last() =~= x);
                assert(fields_of(s@.take(i + 1), sep) =~= fields_of(s@.take(i as int), sep));
            }
            i = i + 1;
        } else {
            let ghost x = split_sep(s@.take(i as int), sep);
            let ghost ell = x.len() - 1;
            let mut j: usize = i + 1;
            proof {
                lemma_split_sep_step(s@, sep, i as int);
                assert(x.last().push(s@[i as int]) =~= s@.subrange(i as int, i + 1));
            }
            while j < n && s.get_char(j) != sep
                invariant
                    n == s@.len(),
                    i < j <= n,
                    x == split_sep(s@.take(i as int), sep),
                    x.len() >= 1,
                    x.last() == Seq::<char>::empty(),
                    ell == x.len() - 1,
                    split_sep(s@.take(j as int), sep) == x.update(
                        ell,
                        s@.subrange(i as int, j as int),
                    ),
                decreases n - j,
            {
                proof {
                    lemma_split_sep_step(s@, sep, j as int);
                    let y = split_sep(s@.take(j as int), sep);
                    assert(y.last() == s@.subrange(i as int, j as int));
                    assert(y.last().push(s@[j as int]) =~= s@.subrange(i as int, j + 1));
                    assert(y.update(ell, s@.subrange(i as int, j + 1)) =~= x.update(
                        ell,
                        s@.subrange(i as int, j + 1),
                    ));
                }
                j = j + 1;
            }
            let tok = s.substring_char(i, j).to_owned();
            proof {
                let t = s@.subrange(i as int, j as int);
                let y = split_sep(s@.take(j as int), sep);
                assert(y.drop_last() =~= x.drop_last());
                assert(y.last() == t);
                assert(t.len() > 0);
                // Appending the finished piece extends the collapsed fields.
                assert(fields_of(s@.take(j as int), sep) == drop_empty(x.drop_last()).push(t));
                assert(x.drop_last() =~= x.update(ell, x.last()).drop_last());
                assert(drop_empty(x) == drop_empty(x.drop_last()));
                assert(views_of(toks@.push(tok)) =~= views_of(toks@).push(tok@));
            }
            toks.push(tok);
            if j < n {
                proof {
                    lemma_split_sep_step(s@, sep, j as int);
                    let y = split_sep(s@.take(j as int), sep);
                    assert(y.push(Seq::<char>::empty()).drop_last() =~= y);
                    assert(fields_of(s@.take(j + 1), sep) =~= fields_of(s@.take(j as int), sep));
                }
                i = j + 1;
            } else {
                i = j;
            }
        }
    }
    proof {
        assert(s@.take(n as int) =~= s@);
    }
    toks
}

} // verus!
