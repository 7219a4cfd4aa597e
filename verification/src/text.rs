//! Character-level string operations with exact specifications: search-and-replace,
//! suffix tests and trimming, and decimal rendering of integers.
use vstd::prelude::*;

verus! {

/// `true` when `pat` occurs in `s` starting at position `i`.
pub open spec fn occurs_at(s: Seq<char>, i: int, pat: Seq<char>) -> bool {
    &&& 0 <= i
    &&& i + pat.len() <= s.len()
    &&& s.subrange(i, i + pat.len()) == pat
}

/// `true` when `pat` occurs anywhere in `s`.
pub open spec fn occurs_in(s: Seq<char>, pat: Seq<char>) -> bool {
    exists|i: int| occurs_at(s, i, pat)
}

/// Left-to-right, non-overlapping replacement of every occurrence of a non-empty `pat`
/// in `s` by `rep` (the behaviour of `str::replace`).
pub open spec fn replaced(s: Seq<char>, pat: Seq<char>, rep: Seq<char>) -> Seq<char>
    decreases s.len(),
{
    if s.len() == 0 || pat.len() == 0 {
        s
    } else if occurs_at(s, 0, pat) {
        rep + replaced(s.subrange(pat.len() as int, s.len() as int), pat, rep)
    } else {
        seq![s[0]] + replaced(s.subrange(1, s.len() as int), pat, rep)
    }
}

/// `true` when `s` ends with `suffix`.
pub open spec fn ends_with(s: Seq<char>, suffix: Seq<char>) -> bool {
    &&& suffix.len() <= s.len()
    &&& s.subrange(s.len() - suffix.len(), s.len() as int) == suffix
}

/// Repeatedly removes a non-empty `suffix` from the end of `s` while it is there
/// (the behaviour of `str::trim_end_matches`).
pub open spec fn trim_end_all(s: Seq<char>, suffix: Seq<char>) -> Seq<char>
    decreases s.len(),
{
    if suffix.len() > 0 && ends_with(s, suffix) {
        trim_end_all(s.subrange(0, s.len() - suffix.len()), suffix)
    } else {
        s
    }
}

/// The ASCII digit for a value below ten.
pub open spec fn digit_char(d: nat) -> char {
    (48 + d) as char
}

/// The decimal rendering of `n`, without sign or leading zeros.
pub open spec fn decimal(n: nat) -> Seq<char>
    decreases n,
{
    if n < 10 {
        seq![digit_char(n)]
    } else {
        decimal(n / 10).push(digit_char(n % 10))
    }
}

/// Appends one character to a `String` (`String::push`).
#[verifier::external_body]
pub(crate) fn push_char(s: &mut String, c: char)
    ensures
        final(s)@ == old(s)@.push(c),
{
    s.push(c);
}

/// The characters of `s`, one per element.
pub fn chars_of(s: &str) -> (v: Vec<char>)
    ensures
        v@ == s@,
{
    let mut v: Vec<char> = Vec::new();
    for c in it: s.chars()
        invariant
            v@ == it.seq().take(it.index() as int),
            it.seq() == s@,
    {
        v.push(c);
    }
    v
}

/// Appends the characters `chars[from..to]` to `out`.
pub(crate) fn push_range(out: &mut String, chars: &Vec<char>, from: usize, to: usize)
    requires
        from <= to <= chars.len(),
    ensures
        final(out)@ == old(out)@ + chars@.subrange(from as int, to as int),
{
    let mut i = from;
    while i < to
        invariant
            from <= i <= to <= chars.len(),
            out@ == old(out)@ + chars@.subrange(from as int, i as int),
        decreases to - i,
    {
        push_char(out, chars[i]);
        assert(chars@.subrange(from as int, i + 1) =~= chars@.subrange(from as int, i as int).push(
            chars@[i as int],
        ));
        i = i + 1;
    }
}

/// Appends all of `s` to `out`.
pub(crate) fn push_str(out: &mut String, s: &str)
    ensures
        final(out)@ == old(out)@ + s@,
{
    let chars = chars_of(s);
    push_range(out, &chars, 0, chars.len());
    assert(chars@.subrange(0, chars@.len() as int) =~= chars@);
}

/// A new `String` holding the characters of `s`.
pub fn owned(s: &str) -> (r: String)
    ensures
        r@ == s@,
{
    let mut r = String::new();
    push_str(&mut r, s);
    r
}

/// Whether `pat` occurs in `s` at position `i`.
fn occurs_at_exec(s: &Vec<char>, i: usize, pat: &Vec<char>) -> (b: bool)
    requires
        i <= s.len(),
    ensures
        b == occurs_at(s@, i as int, pat@),
{
    if pat.len() > s.len() - i {
        return false;
    }
    let mut j: usize = 0;
    while j < pat.len()
        invariant
            i + pat.len() <= s.len(),
            j <= pat.len(),
            forall|k: int| 0 <= k < j ==> s@[i + k] == pat@[k],
        decreases pat.len() - j,
    {
        if s[i + j] != pat[j] {
            assert(s@.subrange(i as int, i + pat.len())[j as int] != pat@[j as int]);
            return false;
        }
        j = j + 1;
    }
    assert(s@.subrange(i as int, i + pat.len()) =~= pat@);
    true
}

/// Unfolds `replaced` at an interior position of `s`.
proof fn lemma_replaced_step(s: Seq<char>, i: int, pat: Seq<char>, rep: Seq<char>)
    requires
        0 <= i < s.len(),
        pat.len() > 0,
    ensures
        occurs_at(s, i, pat) ==> replaced(s.subrange(i, s.len() as int), pat, rep) == rep
            + replaced(s.subrange(i + pat.len(), s.len() as int), pat, rep),
        !occurs_at(s, i, pat) ==> replaced(s.subrange(i, s.len() as int), pat, rep) == seq![s[i]]
            + replaced(s.subrange(i + 1, s.len() as int), pat, rep),
{
    let t = s.subrange(i, s.len() as int);
    assert(occurs_at(s, i, pat) <==> occurs_at(t, 0, pat)) by {
        if i + pat.len() <= s.len() {
            assert(t.subrange(0, pat.len() as int) =~= s.subrange(i, i + pat.len()));
        }
    }
    if occurs_at(t, 0, pat) {
        assert(t.subrange(pat.len() as int, t.len() as int) =~= s.subrange(
            i + pat.len(),
            s.len() as int,
        ));
    } else {
        assert(t.subrange(1, t.len() as int) =~= s.subrange(i + 1, s.len() as int));
    }
}

/// Replaces every occurrence of the non-empty `pat` in `s` by `rep`, scanning left to right.
pub fn replace_all(s: &str, pat: &str, rep: &str) -> (r: String)
    requires
        pat@.len() > 0,
    ensures
        r@ == replaced(s@, pat@, rep@),
{
    let chars = chars_of(s);
    let pat_chars = chars_of(pat);
    let n = chars.len();
    let mut out = String::new();
    let mut i: usize = 0;
    assert(chars@.subrange(0, n as int) =~= chars@);
    while i < n
        invariant
            n == chars.len(),
            chars@ == s@,
            pat_chars@ == pat@,
            pat@.len() > 0,
            i <= n,
            out@ + replaced(chars@.subrange(i as int, n as int), pat@, rep@) == replaced(
                s@,
                pat@,
                rep@,
            ),
        decreases n - i,
    {
        proof {
            lemma_replaced_step(chars@, i as int, pat@, rep@);
        }
        if occurs_at_exec(&chars, i, &pat_chars) {
            let ghost before = out@;
            push_str(&mut out, rep);
            assert(out@ + replaced(chars@.subrange(i + pat@.len(), n as int), pat@, rep@)
                =~= before + (rep@ + replaced(chars@.subrange(i + pat@.len(), n as int), pat@, rep@)));
            i = i + pat_chars.len();
        } else {
            let ghost before = out@;
            push_char(&mut out, chars[i]);
            assert(out@ + replaced(chars@.subrange(i + 1, n as int), pat@, rep@)
                =~= before + (seq![chars@[i as int]] + replaced(chars@.subrange(i + 1, n as int), pat@, rep@)));
            i = i + 1;
        }
    }
    assert(chars@.subrange(n as int, n as int) =~= Seq::<char>::empty());
    assert(out@ =~= out@ + Seq::<char>::empty());
    out
}

/// Whether `pat` occurs anywhere in `s`.
pub fn contains_text(s: &str, pat: &str) -> (b: bool)
    ensures
        b == occurs_in(s@, pat@),
{
    let chars = chars_of(s);
    let pat_chars = chars_of(pat);
    if pat_chars.len() == 0 {
        assert(s@.subrange(0, 0) =~= pat@);
        assert(occurs_at(s@, 0, pat@));
        return true;
    }
    let mut i: usize = 0;
    while i < chars.len()
        invariant
            chars@ == s@,
            pat_chars@ == pat@,
            pat@.len() > 0,
            i <= chars.len(),
            forall|j: int| 0 <= j < i ==> !occurs_at(s@, j, pat@),
        decreases chars.len() - i,
    {
        if occurs_at_exec(&chars, i, &pat_chars) {
            return true;
        }
        i = i + 1;
    }
    assert(!occurs_in(s@, pat@)) by {
        if occurs_in(s@, pat@) {
            let j = choose|j: int| occurs_at(s@, j, pat@);
            assert(j < s@.len());
        }
    }
    false
}

/// Whether `s` ends with `suffix`.
pub fn has_suffix(s: &str, suffix: &str) -> (b: bool)
    ensures
        b == ends_with(s@, suffix@),
{
    let chars = chars_of(s);
    let suf = chars_of(suffix);
    if suf.len() > chars.len() {
        return false;
    }
    let start = chars.len() - suf.len();
    let b = occurs_at_exec(&chars, start, &suf);
    assert(b == ends_with(s@, suffix@));
    b
}

/// `s` with every trailing repetition of the non-empty `suffix` removed.
pub fn trim_end_matches(s: &str, suffix: &str) -> (r: String)
    requires
        suffix@.len() > 0,
    ensures
        r@ == trim_end_all(s@, suffix@),
{
    let chars = chars_of(s);
    let suf = chars_of(suffix);
    let mut end = chars.len();
    assert(chars@.subrange(0, end as int) =~= chars@);
    loop
        invariant
            chars@ == s@,
            suf@ == suffix@,
            suffix@.len() > 0,
            end <= chars.len(),
            trim_end_all(chars@.subrange(0, end as int), suffix@) == trim_end_all(s@, suffix@),
        ensures
            end <= chars.len(),
            trim_end_all(chars@.subrange(0, end as int), suffix@) == trim_end_all(s@, suffix@),
            !ends_with(chars@.subrange(0, end as int), suffix@),
        decreases end,
    {
        let ghost prefix = chars@.subrange(0, end as int);
        if suf.len() <= end && occurs_at_exec(&chars, end - suf.len(), &suf) {
            assert(prefix.subrange(end - suf.len(), end as int) =~= chars@.subrange(
                end - suf.len(),
                end as int,
            ));
            assert(prefix.subrange(0, end - suf.len()) =~= chars@.subrange(0, end - suf.len()));
            end = end - suf.len();
        } else {
            assert(!ends_with(prefix, suffix@)) by {
                if suf.len() <= end {
                    assert(prefix.subrange(end - suf.len(), end as int) =~= chars@.subrange(
                        end - suf.len(),
                        end as int,
                    ));
                }
            }
            break;
        }
    }
    let mut r = String::new();
    push_range(&mut r, &chars, 0, end);
    assert(r@ =~= chars@.subrange(0, end as int));
    r
}

/// Appends the decimal rendering of `n` to `out`.
pub(crate) fn push_decimal(out: &mut String, n: u64)
    ensures
        final(out)@ == old(out)@ + decimal(n as nat),
    decreases n,
{
    if n >= 10 {
        push_decimal(out, n / 10);
    }
    let d: u8 = (n % 10) as u8;
    let c: char = (48u8 + d) as char;
    push_char(out, c);
    assert(c == digit_char((n % 10) as nat));
}

/// The decimal rendering of `n` (what `n.to_string()` gives).
pub fn decimal_string(n: u64) -> (r: String)
    ensures
        r@ == decimal(n as nat),
{
    let mut r = String::new();
    push_decimal(&mut r, n);
    r
}

} // verus!
