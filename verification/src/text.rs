use vstd::prelude::*;

verus! {

broadcast use vstd::string::axiom_spec_iter;

/// The characters of `s`, in order.
pub fn chars_of(s: &str) -> (res: Vec<char>)
    ensures
        res@ == s@,
{
    let mut res: Vec<char> = Vec::new();
    for c in it: s.chars()
        invariant
            res@ == it.seq().take(it.index() as int),
    {
        res.push(c);
    }
    res
}

/// Appends one character to a `String`: `String::push`.
#[verifier::external_body]
fn push_char(s: &mut String, c: char)
    ensures
        final(s)@ == old(s)@.push(c),
{
    s.push(c);
}

/// The `String` made of the characters of `v`, in order.
pub fn string_of(v: &[char]) -> (res: String)
    ensures
        res@ == v@,
{
    let mut res = String::new();
    for i in 0..v.len()
        invariant
            res@ == v@.take(i as int),
    {
        push_char(&mut res, v[i]);
        assert(v@.take(i + 1) == v@.take(i as int).push(v@[i as int]));
    }
    assert(v@.take(v.len() as int) == v@);
    res
}


/// `pat` occurs in `s` starting at index `i`.
pub open spec fn occurs_at(s: Seq<char>, pat: Seq<char>, i: int) -> bool {
    0 <= i && i + pat.len() <= s.len() && s.subrange(i, i + pat.len()) == pat
}

/// `pat` occurs somewhere in `s`.
pub open spec fn contains_seq(s: Seq<char>, pat: Seq<char>) -> bool {
    exists|i: int| occurs_at(s, pat, i)
}

/// The largest `i < n` at which `pat` occurs in `s`, if any.
pub open spec fn last_occurrence_below(s: Seq<char>, pat: Seq<char>, n: int) -> Option<int>
    decreases n,
{
    if n <= 0 {
        None
    } else if occurs_at(s, pat, n - 1) {
        Some(n - 1)
    } else {
        last_occurrence_below(s, pat, n - 1)
    }
}

/// The start of the last occurrence of `pat` in `s`, as `str::rfind` gives it.
pub open spec fn last_occurrence(s: Seq<char>, pat: Seq<char>) -> Option<int> {
    last_occurrence_below(s, pat, s.len() - pat.len() + 1)
}

/// Every occurrence of `pat` in `s`, scanned from the left and without overlap,
/// replaced by `rep`, as `str::replace` does it for a non-empty pattern.
pub open spec fn replace_all(s: Seq<char>, pat: Seq<char>, rep: Seq<char>) -> Seq<char>
    decreases s.len(),
{
    if s.len() == 0 {
        Seq::empty()
    } else if pat.len() > 0 && occurs_at(s, pat, 0) {
        rep + replace_all(s.skip(pat.len() as int), pat, rep)
    } else {
        seq![s[0]] + replace_all(s.skip(1), pat, rep)
    }
}

/// Characterizes `last_occurrence_below`.
pub proof fn lemma_last_occurrence_below(s: Seq<char>, pat: Seq<char>, n: int)
    ensures
        last_occurrence_below(s, pat, n) matches Some(k) ==> {
            &&& occurs_at(s, pat, k)
            &&& k < n
            &&& forall|j: int| k < j < n ==> !occurs_at(s, pat, j)
        },
        last_occurrence_below(s, pat, n) is None ==> forall|j: int| j < n ==> !occurs_at(s, pat, j),
    decreases n,
{
    if n > 0 {
        lemma_last_occurrence_below(s, pat, n - 1);
    }
}

/// `last_occurrence` finds the rightmost occurrence, and `None` means there is none.
pub proof fn lemma_last_occurrence(s: Seq<char>, pat: Seq<char>)
    ensures
        last_occurrence(s, pat) matches Some(k) ==> {
            &&& occurs_at(s, pat, k)
            &&& forall|j: int| k < j ==> !occurs_at(s, pat, j)
        },
        last_occurrence(s, pat) is None <==> !contains_seq(s, pat),
{
    lemma_last_occurrence_below(s, pat, s.len() - pat.len() + 1);
    if let Some(k) = last_occurrence(s, pat) {
        assert(occurs_at(s, pat, k));
    }
}

/// Whether `pat` occurs in `s` at index `i`.
pub fn matches_at(s: &[char], pat: &[char], i: usize) -> (res: bool)
    ensures
        res == occurs_at(s@, pat@, i as int),
{
    if i > s.len() || pat.len() > s.len() - i {
        return false;
    }
    let mut j: usize = 0;
    while j < pat.len()
        invariant
            i + pat.len() <= s.len(),
            j <= pat.len(),
            forall|k: int| 0 <= k < j ==> s@[i + k] == pat@[k],
        decreases pat.len() - j,
    {
        if s[i + j] != pat[j] {
            assert(s@.subrange(i as int, i + pat.len())[j as int] != pat@[j as int]);
            return false;
        }
        j = j + 1;
    }
    assert(s@.subrange(i as int, i + pat.len()) =~= pat@);
    true
}

/// Whether `pat` occurs anywhere in `s`.
pub fn contains_chars(s: &[char], pat: &[char]) -> (res: bool)
    ensures
        res == contains_seq(s@, pat@),
{
    let mut i: usize = 0;
    while i <= s.len()
        invariant
            i <= s.len() + 1,
            forall|k: int| 0 <= k < i ==> !occurs_at(s@, pat@, k),
        decreases s.len() + 1 - i,
    {
        if matches_at(s, pat, i) {
            return true;
        }
        if i == s.len() {
            assert forall|k: int| !occurs_at(s@, pat@, k) by {
                if occurs_at(s@, pat@, k) {
                    assert(0 <= k <= s.len());
                }
            }
            return false;
        }
        i = i + 1;
    }
    false
}

/// The start of the last occurrence of `pat` in `s`, if any (`str::rfind`).
pub fn rfind_chars(s: &[char], pat: &[char]) -> (res: Option<usize>)
    ensures
        match res {
            Some(k) => last_occurrence(s@, pat@) == Some(k as int),
            None => last_occurrence(s@, pat@) is None,
        },
{
    if pat.len() > s.len() {
        return None;
    }
    let mut k: usize = s.len() - pat.len();
    loop
        invariant
            k <= s.len() - pat.len(),
            pat.len() <= s.len(),
            last_occurrence(s@, pat@) == last_occurrence_below(s@, pat@, k + 1),
        decreases k,
    {
        if matches_at(s, pat, k) {
            return Some(k);
        }
        if k == 0 {
            assert(last_occurrence_below(s@, pat@, 0) is None);
            return None;
        }
        k = k - 1;
    }
}

/// `s` with every occurrence of the non-empty `pat` replaced by `rep` (`str::replace`).
pub fn replace_chars(s: &[char], pat: &[char], rep: &[char]) -> (res: Vec<char>)
    requires
        pat.len() > 0,
    ensures
        res@ == replace_all(s@, pat@, rep@),
{
    let mut res: Vec<char> = Vec::new();
    let mut i: usize = 0;
    assert(s@.skip(0) == s@);
    while i < s.len()
        invariant
            i <= s.len(),
            pat.len() > 0,
            replace_all(s@, pat@, rep@) == res@ + replace_all(s@.skip(i as int), pat@, rep@),
        decreases s.len() - i,
    {
        let ghost rest = s@.skip(i as int);
        if matches_at(s, pat, i) {
            assert(occurs_at(rest, pat@, 0)) by {
                assert(rest.subrange(0, pat@.len() as int) =~= s@.subrange(i as int, i + pat@.len()));
            }
            let ghost before = res@;
            let mut k: usize = 0;
            while k < rep.len()
                invariant
                    k <= rep.len(),
                    res@ == before + rep@.take(k as int),
                decreases rep.len() - k,
            {
                res.push(rep[k]);
                assert(rep@.take(k + 1) == rep@.take(k as int).push(rep@[k as int]));
                k = k + 1;
            }
            assert(rep@.take(rep.len() as int) == rep@);
            assert(rest.skip(pat@.len() as int) =~= s@.skip(i + pat.len()));
            i = i + pat.len();
        } else {
            assert(!occurs_at(rest, pat@, 0)) by {
                if occurs_at(rest, pat@, 0) {
                    assert(rest.subrange(0, pat@.len() as int) =~= s@.subrange(i as int, i + pat@.len()));
                }
            }
            res.push(s[i]);
            assert(rest.skip(1) =~= s@.skip(i + 1));
            i = i + 1;
        }
    }
    res
}


/// Replacing a pattern that does not occur changes nothing.
pub proof fn lemma_replace_absent(s: Seq<char>, pat: Seq<char>, rep: Seq<char>)
    requires
        pat.len() > 0,
        !contains_seq(s, pat),
    ensures
        replace_all(s, pat, rep) == s,
    decreases s.len(),
{
    if s.len() > 0 {
        let rest = s.skip(1);
        assert(!occurs_at(s, pat, 0));
        assert forall|i: int| !occurs_at(rest, pat, i) by {
            if occurs_at(rest, pat, i) {
                assert(s.subrange(i + 1, i + 1 + pat.len()) =~= rest.subrange(i, i + pat.len()));
                assert(occurs_at(s, pat, i + 1));
            }
        }
        lemma_replace_absent(rest, pat, rep);
        assert(s =~= seq![s[0]] + rest);
    }
}


/// `pat` starts with `h` and holds it nowhere else.
pub open spec fn led_by(pat: Seq<char>, h: char) -> bool {
    &&& pat.len() > 0
    &&& pat[0] == h
    &&& forall|k: int| 1 <= k < pat.len() ==> pat[k] != h
}

/// Each `h` in `s` starts an occurrence of `p` or of `q`.
pub open spec fn each_starts(s: Seq<char>, h: char, p: Seq<char>, q: Seq<char>) -> bool {
    forall|i: int| 0 <= i < s.len() && s[i] == h ==> occurs_at(s, p, i) || occurs_at(s, q, i)
}

proof fn lemma_occurs_skip(s: Seq<char>, pat: Seq<char>, n: int, i: int)
    requires
        0 <= n <= s.len(),
        0 <= i,
        i + n + pat.len() <= s.len(),
        occurs_at(s, pat, i + n),
    ensures
        occurs_at(s.skip(n), pat, i),
{
    assert(s.skip(n).subrange(i, i + pat.len()) =~= s.subrange(i + n, i + n + pat.len()));
}

proof fn lemma_each_starts_skip(s: Seq<char>, h: char, p: Seq<char>, q: Seq<char>, n: int)
    requires
        0 <= n <= s.len(),
        each_starts(s, h, p, q),
    ensures
        each_starts(s.skip(n), h, p, q),
{
    let t = s.skip(n);
    assert forall|i: int| 0 <= i < t.len() && t[i] == h implies occurs_at(t, p, i) || occurs_at(
        t,
        q,
        i,
    ) by {
        assert(s[i + n] == h);
        if occurs_at(s, p, i + n) {
            lemma_occurs_skip(s, p, n, i);
        } else {
            lemma_occurs_skip(s, q, n, i);
        }
    }
}

pub proof fn lemma_replace_prefix_without(t: Seq<char>, u: Seq<char>, pat: Seq<char>, rep: Seq<char>)
    requires
        pat.len() > 0,
        forall|k: int| 0 <= k < t.len() ==> t[k] != pat[0],
    ensures
        replace_all(t + u, pat, rep) == t + replace_all(u, pat, rep),
    decreases t.len(),
{
    if t.len() == 0 {
        assert(t + u =~= u);
    } else {
        let w = t + u;
        assert(w[0] == t[0]);
        assert(!occurs_at(w, pat, 0)) by {
            if occurs_at(w, pat, 0) {
                assert(w.subrange(0, pat.len() as int)[0] == pat[0]);
            }
        }
        assert(w.skip(1) =~= t.skip(1) + u);
        lemma_replace_prefix_without(t.skip(1), u, pat, rep);
        assert(seq![t[0]] + t.skip(1) =~= t);
    }
}

/// Removing every `p` leaves each `h` at the start of a `q`, where each `h`
/// started a `p` or a `q` before and both hold `h` only in first place.
pub proof fn lemma_remove_first_form(s: Seq<char>, h: char, p: Seq<char>, q: Seq<char>)
    requires
        led_by(p, h),
        led_by(q, h),
        each_starts(s, h, p, q),
    ensures
        each_starts(replace_all(s, p, Seq::empty()), h, q, q),
    decreases s.len(),
{
    let r = replace_all(s, p, Seq::empty());
    if s.len() == 0 {
    } else if occurs_at(s, p, 0) {
        lemma_each_starts_skip(s, h, p, q, p.len() as int);
        lemma_remove_first_form(s.skip(p.len() as int), h, p, q);
        assert(r =~= replace_all(s.skip(p.len() as int), p, Seq::empty()));
    } else {
        let rest = s.skip(1);
        let rr = replace_all(rest, p, Seq::empty());
        lemma_each_starts_skip(s, h, p, q, 1);
        lemma_remove_first_form(rest, h, p, q);
        assert(r == seq![s[0]] + rr);
        assert forall|i: int| 0 <= i < r.len() && r[i] == h implies occurs_at(r, q, i) by {
            if i >= 1 {
                assert(r[i] == rr[i - 1]);
                assert(occurs_at(rr, q, i - 1));
                assert(r.subrange(i, i + q.len()) =~= rr.subrange(i - 1, i - 1 + q.len()));
            } else {
                assert(occurs_at(s, q, 0));
                let body = q.skip(1);
                assert(s.subrange(0, q.len() as int) =~= q);
                assert(rest =~= body + s.skip(q.len() as int)) by {
                    assert forall|k: int| 0 <= k < rest.len() implies rest[k] == (body + s.skip(
                        q.len() as int,
                    ))[k] by {
                        if k < body.len() {
                            assert(rest[k] == s[k + 1]);
                            assert(s.subrange(0, q.len() as int)[k + 1] == s[k + 1]);
                        }
                    }
                }
                lemma_replace_prefix_without(body, s.skip(q.len() as int), p, Seq::empty());
                assert(r.subrange(0, q.len() as int) =~= q);
            }
        }
    }
}

/// Removing every `q` leaves no `h`, where each `h` started a `q`.
pub proof fn lemma_remove_second_form(s: Seq<char>, h: char, q: Seq<char>)
    requires
        led_by(q, h),
        each_starts(s, h, q, q),
    ensures
        forall|i: int|
            0 <= i < replace_all(s, q, Seq::empty()).len() ==> #[trigger] replace_all(
                s,
                q,
                Seq::empty(),
            )[i] != h,
    decreases s.len(),
{
    let r = replace_all(s, q, Seq::empty());
    if s.len() == 0 {
    } else if occurs_at(s, q, 0) {
        lemma_each_starts_skip(s, h, q, q, q.len() as int);
        lemma_remove_second_form(s.skip(q.len() as int), h, q);
        assert(r =~= replace_all(s.skip(q.len() as int), q, Seq::empty()));
    } else {
        let rest = s.skip(1);
        lemma_each_starts_skip(s, h, q, q, 1);
        lemma_remove_second_form(rest, h, q);
        let rr = replace_all(rest, q, Seq::empty());
        assert(r == seq![s[0]] + rr);
        assert forall|i: int| 0 <= i < r.len() implies r[i] != h by {
            if i >= 1 {
                assert(r[i] == rr[i - 1]);
            }
        }
    }
}

}
