//! Small text helpers shared by the modules: fixed messages and messages
//! that embed decimal numbers.

use vstd::prelude::*;

verus! {

/// The characters of the decimal rendering of `n`.
pub open spec fn decimal(n: nat) -> Seq<char>
    decreases n,
{
    if n < 10 {
        seq![digit_char(n)]
    } else {
        decimal(n / 10).push(digit_char(n % 10))
    }
}

/// The ASCII digit for `d` (below ten).
pub open spec fn digit_char(d: nat) -> char {
    if d == 0 { '0' }
    else if d == 1 { '1' }
    else if d == 2 { '2' }
    else if d == 3 { '3' }
    else if d == 4 { '4' }
    else if d == 5 { '5' }
    else if d == 6 { '6' }
    else if d == 7 { '7' }
    else if d == 8 { '8' }
    else { '9' }
}

/// Renders `n` in decimal, as `format!("{}", n)` does for unsigned integers.
#[verifier::external_body]
pub fn u64_to_string(n: u64) -> (s: String)
    ensures
        s@ == decimal(n as nat),
{
    n.to_string()
}

/// Builds an owned string from a literal.
pub fn owned(s: &str) -> (r: String)
    ensures
        r@ == s@,
{
    s.to_owned()
}

/// Appends `c` to `s` (`String::push`).
#[verifier::external_body]
pub fn push_char(s: &mut String, c: char)
    ensures
        final(s)@ == old(s)@.push(c),
{
    s.push(c);
}

/// `a` followed by `b`.
pub fn concat(a: &str, b: &str) -> (r: String)
    ensures
        r@ == a@ + b@,
{
    let mut r = a.to_owned();
    r.append(b);
    r
}

} // verus!

verus! {

/// The characters of `s`.
pub fn chars_of(s: &str) -> (r: Vec<char>)
    ensures
        r@ == s@,
{
    let mut r: Vec<char> = Vec::new();
    for c in it: s.chars()
        invariant
            r@ == it.seq().take(it.index()),
    {
        r.push(c);
    }
    r
}

} // verus!

verus! {

/// `n` occurs in `h` starting at position `i`.
pub open spec fn occurs_at(h: Seq<char>, n: Seq<char>, i: int) -> bool {
    0 <= i && i + n.len() <= h.len() && h.subrange(i, i + n.len()) == n
}

/// `n` occurs somewhere in `h`.
pub open spec fn has_substring(h: Seq<char>, n: Seq<char>) -> bool {
    exists|i: int| occurs_at(h, n, i)
}

/// Whether `n` occurs in `h[from..to]`.
pub fn contains_in(h: &Vec<char>, from: usize, to: usize, n: &Vec<char>) -> (r: bool)
    requires
        from <= to <= h@.len(),
    ensures
        r == has_substring(h@.subrange(from as int, to as int), n@),
{
    let ghost w = h@.subrange(from as int, to as int);
    if n.len() > to - from {
        proof {
            if has_substring(w, n@) {
                let i = choose|i: int| occurs_at(w, n@, i);
            }
        }
        return false;
    }
    if n.len() == 0 {
        assert(w.subrange(0, 0) =~= n@);
        assert(occurs_at(w, n@, 0));
        return true;
    }
    let mut i: usize = from;
    while n.len() <= to - i
        invariant
            from <= i,
            i <= to,
            n@.len() >= 1,
            to <= h@.len(),
            w == h@.subrange(from as int, to as int),
            forall|k: int| 0 <= k < i - from ==> !occurs_at(w, n@, k),
        decreases to - i,
    {
        let mut j: usize = 0;
        let mut same = true;
        while j < n.len()
            invariant
                j <= n@.len(),
                i + n@.len() <= to,
                to <= h@.len(),
                same == (forall|t: int| 0 <= t < j ==> h@[i + t] == n@[t]),
            decreases n@.len() - j,
        {
            if h[i + j] != n[j] {
                same = false;
            }
            j = j + 1;
        }
        proof {
            let k = i - from;
            if same {
                assert(w.subrange(k, k + n@.len()) =~= n@) by {
                    assert forall|t: int| 0 <= t < n@.len() implies w.subrange(k, k + n@.len())[t] == n@[t] by {
                        assert(w[k + t] == h@[i + t]);
                    }
                }
                assert(occurs_at(w, n@, k));
            } else {
                if occurs_at(w, n@, k) {
                    assert forall|t: int| 0 <= t < n@.len() implies h@[i + t] == n@[t] by {
                        assert(w.subrange(k, k + n@.len())[t] == n@[t]);
                        assert(w[k + t] == h@[i + t]);
                    }
                }
            }
        }
        if same {
            return true;
        }
        i = i + 1;
    }
    proof {
        assert forall|k: int| !occurs_at(w, n@, k) by {
            if occurs_at(w, n@, k) {
                assert(k < i - from);
            }
        }
    }
    false
}

/// Whether `n` occurs in `h`, as `str::contains` does for a string pattern.
pub fn str_contains(h: &str, n: &str) -> (r: bool)
    ensures
        r == has_substring(h@, n@),
{
    let hc = chars_of(h);
    let nc = chars_of(n);
    assert(hc@.subrange(0, hc@.len() as int) =~= hc@);
    contains_in(&hc, 0, hc.len(), &nc)
}

} // verus!

verus! {

/// Position of the first line feed in `s` at or after `j`.
pub open spec fn next_newline(s: Seq<char>, j: int) -> Option<int>
    decreases s.len() - j,
{
    if j < 0 || j >= s.len() {
        None
    } else if s[j] == '\n' {
        Some(j)
    } else {
        next_newline(s, j + 1)
    }
}

/// `l` without one trailing carriage return.
pub open spec fn strip_cr(l: Seq<char>) -> Seq<char> {
    if l.len() > 0 && l.last() == '\r' {
        l.drop_last()
    } else {
        l
    }
}

/// The lines of `s` from position `pos` on, as `str::lines` splits them:
/// at each line feed, dropping a carriage return before it; a final empty
/// piece is not a line.
pub open spec fn lines_from(s: Seq<char>, pos: int) -> Seq<Seq<char>>
    decreases s.len() - pos,
{
    if pos < 0 || pos >= s.len() {
        Seq::empty()
    } else {
        match next_newline(s, pos) {
            Some(j) => if pos <= j < s.len() {
                seq![strip_cr(s.subrange(pos, j))] + lines_from(s, j + 1)
            } else {
                Seq::empty()
            },
            None => seq![s.subrange(pos, s.len() as int)],
        }
    }
}

/// The lines of `s`.
pub open spec fn lines_of(s: Seq<char>) -> Seq<Seq<char>> {
    lines_from(s, 0)
}

/// A found line feed lies at or after the start and inside the text.
pub proof fn lemma_next_newline(s: Seq<char>, j: int)
    ensures
        next_newline(s, j) matches Some(k) ==> j <= k < s.len() && s[k] == '\n',
    decreases s.len() - j,
{
    if 0 <= j < s.len() && s[j] != '\n' {
        lemma_next_newline(s, j + 1);
    }
}

/// The character ranges `[start, end)` of the lines of `cs`.
pub fn line_ranges(cs: &Vec<char>) -> (r: Vec<(usize, usize)>)
    ensures
        r@.len() == lines_of(cs@).len(),
        forall|k: int| 0 <= k < r@.len() ==> #[trigger] r@[k].0 <= r@[k].1 <= cs@.len()
            && cs@.subrange(r@[k].0 as int, r@[k].1 as int) == lines_of(cs@)[k],
{
    let ghost all = lines_of(cs@);
    let mut r: Vec<(usize, usize)> = Vec::new();
    let mut pos: usize = 0;
    while pos < cs.len()
        invariant
            pos <= cs@.len(),
            all == lines_of(cs@),
            all == r@.map_values(|p: (usize, usize)| cs@.subrange(p.0 as int, p.1 as int)) + lines_from(cs@, pos as int),
            forall|k: int| 0 <= k < r@.len() ==> #[trigger] r@[k].0 <= r@[k].1 <= cs@.len(),
        decreases cs@.len() - pos,
    {
        let mut j: usize = pos;
        while j < cs.len() && cs[j] != '\n'
            invariant
                pos <= j <= cs@.len(),
                next_newline(cs@, pos as int) == next_newline(cs@, j as int),
            decreases cs@.len() - j,
        {
            j = j + 1;
        }
        let ghost done = r@.map_values(|p: (usize, usize)| cs@.subrange(p.0 as int, p.1 as int));
        if j < cs.len() {
            let end = if j > pos && cs[j - 1] == '\r' { j - 1 } else { j };
            r.push((pos, end));
            proof {
                assert(cs@.subrange(pos as int, end as int) == strip_cr(cs@.subrange(pos as int, j as int))) by {
                    if j > pos && cs@[j - 1] == '\r' {
                        assert(cs@.subrange(pos as int, j as int).drop_last() =~= cs@.subrange(pos as int, end as int));
                    }
                }
                assert(r@.map_values(|p: (usize, usize)| cs@.subrange(p.0 as int, p.1 as int)) =~= done.push(cs@.subrange(pos as int, end as int)));
                assert(lines_from(cs@, pos as int) == seq![strip_cr(cs@.subrange(pos as int, j as int))] + lines_from(cs@, j + 1));
                assert(done + lines_from(cs@, pos as int) =~= done.push(cs@.subrange(pos as int, end as int)) + lines_from(cs@, j + 1));
            }
            pos = j + 1;
        } else {
            r.push((pos, j));
            proof {
                assert(r@.map_values(|p: (usize, usize)| cs@.subrange(p.0 as int, p.1 as int)) =~= done.push(cs@.subrange(pos as int, j as int)));
                assert(lines_from(cs@, j as int) == Seq::<Seq<char>>::empty());
                assert(done + lines_from(cs@, pos as int) =~= done.push(cs@.subrange(pos as int, j as int)));
            }
            pos = j;
        }
    }
    proof {
        assert(lines_from(cs@, pos as int) == Seq::<Seq<char>>::empty());
        let m = r@.map_values(|p: (usize, usize)| cs@.subrange(p.0 as int, p.1 as int));
        assert(all =~= m);
        assert forall|k: int| 0 <= k < r@.len() implies #[trigger] r@[k].0 <= r@[k].1 <= cs@.len()
            && cs@.subrange(r@[k].0 as int, r@[k].1 as int) == lines_of(cs@)[k] by {
            assert(m[k] == cs@.subrange(r@[k].0 as int, r@[k].1 as int));
        }
    }
    r
}

/// Unicode white space, as `char::is_whitespace` classifies it.
pub open spec fn is_white(c: char) -> bool {
    let u = c as u32;
    (0x09 <= u <= 0x0d) || u == 0x20 || u == 0x85 || u == 0xa0 || u == 0x1680 || (0x2000 <= u <= 0x200a)
        || u == 0x2028 || u == 0x2029 || u == 0x202f || u == 0x205f || u == 0x3000
}

/// Whether `c` is white space.
pub fn white(c: char) -> (b: bool)
    ensures
        b == is_white(c),
{
    let u = c as u32;
    (0x09 <= u && u <= 0x0d) || u == 0x20 || u == 0x85 || u == 0xa0 || u == 0x1680 || (0x2000 <= u && u <= 0x200a)
        || u == 0x2028 || u == 0x2029 || u == 0x202f || u == 0x205f || u == 0x3000
}

/// `l` without leading and trailing white space, as `str::trim` gives it.
pub open spec fn trimmed(l: Seq<char>) -> Seq<char> {
    l.subrange(trim_start(l, 0), trim_end(l, l.len() as int, trim_start(l, 0)))
}

/// The first position at or after `i` that is not white space (`l.len()`
/// when there is none).
pub open spec fn trim_start(l: Seq<char>, i: int) -> int
    decreases l.len() - i,
{
    if i < 0 || i >= l.len() {
        if i < 0 { 0 } else { l.len() as int }
    } else if is_white(l[i]) {
        trim_start(l, i + 1)
    } else {
        i
    }
}

/// Going back from `j` (not below `lo`), the end of the last character that
/// is not white space.
pub open spec fn trim_end(l: Seq<char>, j: int, lo: int) -> int
    decreases j - lo,
{
    if j <= lo || j > l.len() {
        if j <= lo { lo } else { l.len() as int }
    } else if is_white(l[j - 1]) {
        trim_end(l, j - 1, lo)
    } else {
        j
    }
}

/// Trimming from the front stays inside the text.
pub proof fn lemma_trim_start_bounds(l: Seq<char>, i: int)
    requires
        0 <= i <= l.len(),
    ensures
        i <= trim_start(l, i) <= l.len(),
    decreases l.len() - i,
{
    if i < l.len() && is_white(l[i]) {
        lemma_trim_start_bounds(l, i + 1);
    }
}

/// Trimming from the back stays between the bounds.
pub proof fn lemma_trim_end_bounds(l: Seq<char>, j: int, lo: int)
    requires
        0 <= lo <= j <= l.len(),
    ensures
        lo <= trim_end(l, j, lo) <= j,
    decreases j - lo,
{
    if lo < j && is_white(l[j - 1]) {
        lemma_trim_end_bounds(l, j - 1, lo);
    }
}

/// The range of `cs[from..to]` left after trimming white space at both ends
/// (as positions in `cs`).
pub fn trim_range(cs: &Vec<char>, from: usize, to: usize) -> (r: (usize, usize))
    requires
        from <= to <= cs@.len(),
    ensures
        from <= r.0 <= r.1 <= to,
        cs@.subrange(r.0 as int, r.1 as int) == trimmed(cs@.subrange(from as int, to as int)),
{
    let ghost l = cs@.subrange(from as int, to as int);
    let mut a: usize = from;
    while a < to && white(cs[a])
        invariant
            from <= a <= to,
            to <= cs@.len(),
            l == cs@.subrange(from as int, to as int),
            trim_start(l, 0) == trim_start(l, a - from),
        decreases to - a,
    {
        a = a + 1;
    }
    let mut b: usize = to;
    while b > a && white(cs[b - 1])
        invariant
            a <= b <= to,
            from <= a,
            to <= cs@.len(),
            l == cs@.subrange(from as int, to as int),
            trim_start(l, 0) == a - from,
            trim_end(l, l.len() as int, a - from) == trim_end(l, b - from, a - from),
        decreases b - a,
    {
        b = b - 1;
    }
    proof {
        assert(cs@.subrange(a as int, b as int) =~= l.subrange(a - from, b - from));
    }
    (a, b)
}

} // verus!

verus! {

/// The characters of the decimal rendering of `n`, with a leading '-' for
/// negatives.
pub open spec fn signed_decimal(n: int) -> Seq<char> {
    if n < 0 {
        seq!['-'] + decimal((-n) as nat)
    } else {
        decimal(n as nat)
    }
}

/// Renders `n` in decimal, as `format!("{}", n)` does for signed integers.
#[verifier::external_body]
pub fn i64_to_string(n: i64) -> (s: String)
    ensures
        s@ == signed_decimal(n as int),
{
    n.to_string()
}

} // verus!
