//! Character-level helpers over `String`/`&str`, specified over `Seq<char>`.
use vstd::prelude::*;

verus! {

/// `p` is a prefix of `s`.
pub open spec fn is_prefix(p: Seq<char>, s: Seq<char>) -> bool {
    p.len() <= s.len() && s.subrange(0, p.len() as int) == p
}

/// `p` is a suffix of `s`.
pub open spec fn is_suffix(p: Seq<char>, s: Seq<char>) -> bool {
    p.len() <= s.len() && s.subrange(s.len() - p.len(), s.len() as int) == p
}

/// `p` occurs in `s` starting at index `i`.
pub open spec fn occurs_at(s: Seq<char>, p: Seq<char>, i: int) -> bool {
    0 <= i && i + p.len() <= s.len() && s.subrange(i, i + p.len()) == p
}

/// `p` occurs somewhere in `s`.
pub open spec fn contains_sub(s: Seq<char>, p: Seq<char>) -> bool {
    exists|i: int| occurs_at(s, p, i)
}

/// The two-character separator `::`.
pub open spec fn sep() -> Seq<char> {
    seq![':', ':']
}

/// `String::push` from std. Claimed, as its documentation says: the
/// string afterwards is the old one with `c` appended at the end.
#[verifier::external_body]
pub(crate) fn push_char(s: &mut String, c: char)
    ensures
        final(s)@ == old(s)@.push(c),
{
    s.push(c);
}

/// Copies the characters of `s` into a vector.
pub fn chars_of(s: &str) -> (v: Vec<char>)
    ensures
        v@ == s@,
{
    let n = s.unicode_len();
    let mut v: Vec<char> = Vec::new();
    let mut i: usize = 0;
    while i < n
        invariant
            n == s@.len(),
            i <= n,
            v@ == s@.subrange(0, i as int),
        decreases n - i,
    {
        let c = s.get_char(i);
        v.push(c);
        i += 1;
        assert(v@ =~= s@.subrange(0, i as int));
    }
    assert(v@ =~= s@);
    v
}

/// Builds a `String` holding exactly the characters of `cs`.
pub fn string_from_chars(cs: &[char]) -> (s: String)
    ensures
        s@ == cs@,
{
    let mut s = String::new();
    let mut i: usize = 0;
    while i < cs.len()
        invariant
            i <= cs@.len(),
            s@ == cs@.subrange(0, i as int),
        decreases cs@.len() - i,
    {
        push_char(&mut s, cs[i]);
        i += 1;
        assert(s@ =~= cs@.subrange(0, i as int));
    }
    assert(s@ =~= cs@);
    s
}

/// Appends all characters of `t` to `s`.
pub fn append_str(s: &mut String, t: &str)
    ensures
        final(s)@ == old(s)@ + t@,
{
    let cs = chars_of(t);
    let ghost s0 = s@;
    let mut i: usize = 0;
    while i < cs.len()
        invariant
            i <= cs@.len(),
            cs@ == t@,
            s@ == s0 + cs@.subrange(0, i as int),
        decreases cs@.len() - i,
    {
        push_char(s, cs[i]);
        i += 1;
        assert(s@ =~= s0 + cs@.subrange(0, i as int));
    }
    assert(cs@.subrange(0, cs@.len() as int) =~= cs@);
}

/// Character-wise equality of two strings.
pub fn str_eq(a: &str, b: &str) -> (r: bool)
    ensures
        r == (a@ == b@),
{
    let x = chars_of(a);
    let y = chars_of(b);
    if x.len() != y.len() {
        return false;
    }
    let mut i: usize = 0;
    while i < x.len()
        invariant
            x@ == a@,
            y@ == b@,
            x@.len() == y@.len(),
            i <= x@.len(),
            forall|j: int| 0 <= j < i ==> x@[j] == y@[j],
        decreases x@.len() - i,
    {
        if x[i] != y[i] {
            assert(x@[i as int] != y@[i as int]);
            assert(!(x@ =~= y@));
            return false;
        }
        i += 1;
    }
    assert(x@ =~= y@);
    true
}

/// Whether `p` occurs in `s` at index `i`, over character vectors.
pub fn occurs_at_exec(s: &Vec<char>, p: &Vec<char>, i: usize) -> (r: bool)
    ensures
        r == occurs_at(s@, p@, i as int),
{
    if i > s.len() || p.len() > s.len() - i {
        return false;
    }
    let mut j: usize = 0;
    while j < p.len()
        invariant
            i + p@.len() <= s@.len(),
            s@.len() <= usize::MAX,
            j <= p@.len(),
            forall|k: int| 0 <= k < j ==> s@[i + k] == p@[k],
        decreases p@.len() - j,
    {
        assert(i + j < s@.len());
        let k: usize = i + j;
        if s[k] != p[j] {
            assert(s@.subrange(i as int, i + p@.len())[j as int] != p@[j as int]);
            return false;
        }
        j += 1;
    }
    assert(s@.subrange(i as int, i + p@.len()) =~= p@);
    true
}

/// Whether `p` is a prefix of `s`.
pub fn starts_with(s: &str, p: &str) -> (r: bool)
    ensures
        r == is_prefix(p@, s@),
{
    let x = chars_of(s);
    let y = chars_of(p);
    occurs_at_exec(&x, &y, 0)
}

/// Whether `p` is a suffix of `s`.
pub fn ends_with(s: &str, p: &str) -> (r: bool)
    ensures
        r == is_suffix(p@, s@),
{
    let x = chars_of(s);
    let y = chars_of(p);
    if y.len() > x.len() {
        return false;
    }
    occurs_at_exec(&x, &y, x.len() - y.len())
}

/// Index of the first occurrence of `p` in `s`, if any.
pub fn find_first(s: &Vec<char>, p: &Vec<char>) -> (r: Option<usize>)
    ensures
        r matches Some(i) ==> occurs_at(s@, p@, i as int) && forall|j: int|
            0 <= j < i ==> !occurs_at(s@, p@, j),
        r is None ==> !contains_sub(s@, p@),
{
    let mut i: usize = 0;
    loop
        invariant
            i <= s@.len(),
            forall|j: int| 0 <= j < i ==> !occurs_at(s@, p@, j),
        decreases s@.len() - i,
    {
        if occurs_at_exec(s, p, i) {
            return Some(i);
        }
        if i == s.len() {
            assert forall|j: int| !occurs_at(s@, p@, j) by {
                if 0 <= j && j + p@.len() <= s@.len() {
                    assert(j <= i);
                }
            }
            return None;
        }
        i += 1;
    }
}

/// Index of the last occurrence of `p` in `s`, if any.
pub fn find_last(s: &Vec<char>, p: &Vec<char>) -> (r: Option<usize>)
    ensures
        r matches Some(i) ==> occurs_at(s@, p@, i as int) && forall|j: int|
            i < j ==> !occurs_at(s@, p@, j),
        r is None ==> !contains_sub(s@, p@),
{
    if p.len() > s.len() {
        assert forall|j: int| !occurs_at(s@, p@, j) by {}
        return None;
    }
    let mut i: usize = s.len() - p.len();
    loop
        invariant
            i <= s@.len() - p@.len(),
            p@.len() <= s@.len(),
            forall|j: int| i < j ==> !occurs_at(s@, p@, j),
        decreases i,
    {
        if occurs_at_exec(s, p, i) {
            return Some(i);
        }
        if i == 0 {
            assert forall|j: int| !occurs_at(s@, p@, j) by {
                if 0 <= j && j + p@.len() <= s@.len() {
                    assert(j >= i);
                }
            }
            return None;
        }
        i -= 1;
    }
}

/// Whether `p` occurs somewhere in `s`.
pub fn contains_str(s: &str, p: &str) -> (r: bool)
    ensures
        r == contains_sub(s@, p@),
{
    let x = chars_of(s);
    let y = chars_of(p);
    find_first(&x, &y).is_some()
}

/// The characters of `s` from index `from` to index `to`.
pub fn substring(s: &Vec<char>, from: usize, to: usize) -> (r: String)
    requires
        from <= to <= s@.len(),
    ensures
        r@ == s@.subrange(from as int, to as int),
{
    let mut r = String::new();
    let mut i = from;
    while i < to
        invariant
            from <= i <= to <= s@.len(),
            r@ == s@.subrange(from as int, i as int),
        decreases to - i,
    {
        push_char(&mut r, s[i]);
        i += 1;
        assert(r@ =~= s@.subrange(from as int, i as int));
    }
    r
}

/// The string `::`.
pub fn sep_string() -> (r: String)
    ensures
        r@ == sep(),
{
    let mut r = String::new();
    push_char(&mut r, ':');
    push_char(&mut r, ':');
    assert(r@ =~= sep());
    r
}

/// `a`, then `::`, then `b`.
pub open spec fn join2(a: Seq<char>, b: Seq<char>) -> Seq<char> {
    a + sep() + b
}

/// Builds `a::b`.
pub fn join_path(a: &str, b: &str) -> (r: String)
    ensures
        r@ == join2(a@, b@),
{
    let mut r = String::new();
    append_str(&mut r, a);
    push_char(&mut r, ':');
    push_char(&mut r, ':');
    append_str(&mut r, b);
    assert(r@ =~= join2(a@, b@));
    r
}

/// The text after the last `::` of `s`, or all of `s` when it has none.
pub open spec fn last_segment(s: Seq<char>) -> Seq<char> {
    if contains_sub(s, sep()) {
        let i = choose|i: int| occurs_at(s, sep(), i) && forall|j: int| i < j ==> !occurs_at(s, sep(), j);
        s.subrange(i + 2, s.len() as int)
    } else {
        s
    }
}

/// The text before the last `::` of `s`, or the empty text when it has none.
pub open spec fn parent_module(s: Seq<char>) -> Seq<char> {
    if contains_sub(s, sep()) {
        let i = choose|i: int| occurs_at(s, sep(), i) && forall|j: int| i < j ==> !occurs_at(s, sep(), j);
        s.subrange(0, i)
    } else {
        Seq::empty()
    }
}

proof fn lemma_last_occurrence_unique(s: Seq<char>, i: int)
    requires
        occurs_at(s, sep(), i),
        forall|j: int| i < j ==> !occurs_at(s, sep(), j),
    ensures
        contains_sub(s, sep()),
        (choose|k: int| occurs_at(s, sep(), k) && forall|j: int| k < j ==> !occurs_at(s, sep(), j)) == i,
{
    let k = choose|k: int| occurs_at(s, sep(), k) && forall|j: int| k < j ==> !occurs_at(s, sep(), j);
    assert(occurs_at(s, sep(), k) && forall|j: int| k < j ==> !occurs_at(s, sep(), j));
    if k < i {
    } else if i < k {
    }
}

/// Splits an absolute path at its last `::`: (parent module, last segment).
pub fn split_last_sep(s: &str) -> (r: (String, String))
    ensures
        r.0@ == parent_module(s@),
        r.1@ == last_segment(s@),
{
    let cs = chars_of(s);
    let sp: Vec<char> = vec![':', ':'];
    assert(sp@ =~= sep());
    match find_last(&cs, &sp) {
        Some(i) => {
            proof {
                lemma_last_occurrence_unique(s@, i as int);
            }
            let n = cs.len();
            assert(i + 2 <= cs@.len());
            let a = substring(&cs, 0, i);
            let b = substring(&cs, i + 2, n);
            (a, b)
        },
        None => {
            let a = String::new();
            let b = string_from_chars(cs.as_slice());
            (a, b)
        },
    }
}

/// Lexicographic order on character sequences (by code point).
pub open spec fn seq_lt(a: Seq<char>, b: Seq<char>) -> bool
    decreases a.len(),
{
    if a.len() == 0 {
        b.len() > 0
    } else if b.len() == 0 {
        false
    } else if (a[0] as u32) < (b[0] as u32) {
        true
    } else if a[0] == b[0] {
        seq_lt(a.drop_first(), b.drop_first())
    } else {
        false
    }
}

/// Lexicographic strict order of two character sequences.
pub fn lt_chars(a: &Vec<char>, b: &Vec<char>) -> (r: bool)
    ensures
        r == seq_lt(a@, b@),
{
    let mut i: usize = 0;
    assert(a@.subrange(0, a@.len() as int) =~= a@);
    assert(b@.subrange(0, b@.len() as int) =~= b@);
    while i < a.len() && i < b.len()
        invariant
            i <= a@.len(),
            i <= b@.len(),
            forall|k: int| 0 <= k < i ==> a@[k] == b@[k],
            seq_lt(a@, b@) == seq_lt(a@.subrange(i as int, a@.len() as int), b@.subrange(i as int, b@.len() as int)),
        decreases a@.len() - i,
    {
        let ca = a[i];
        let cb = b[i];
        let ghost sa = a@.subrange(i as int, a@.len() as int);
        let ghost sb = b@.subrange(i as int, b@.len() as int);
        assert(sa[0] == ca && sb[0] == cb);
        if (ca as u32) < (cb as u32) {
            return true;
        }
        if ca != cb {
            return false;
        }
        assert(sa.drop_first() =~= a@.subrange(i + 1, a@.len() as int));
        assert(sb.drop_first() =~= b@.subrange(i + 1, b@.len() as int));
        i += 1;
    }
    i < b.len() && i >= a.len()
}

/// Strict lexicographic order of two strings.
pub fn str_lt(a: &str, b: &str) -> (r: bool)
    ensures
        r == seq_lt(a@, b@),
{
    let x = chars_of(a);
    let y = chars_of(b);
    lt_chars(&x, &y)
}

/// Decimal digits of a natural number.
pub open spec fn decimal(n: nat) -> Seq<char>
    decreases n,
{
    if n < 10 {
        seq![digit_char(n)]
    } else {
        decimal(n / 10) + seq![digit_char(n % 10)]
    }
}

/// The ASCII digit for `d < 10`.
pub open spec fn digit_char(d: nat) -> char {
    if d == 0 { '0' }
    else if d == 1 { '1' }
    else if d == 2 { '2' }
    else if d == 3 { '3' }
    else if d == 4 { '4' }
    else if d == 5 { '5' }
    else if d == 6 { '6' }
    else if d == 7 { '7' }
    else if d == 8 { '8' }
    else { '9' }
}

fn digit_char_exec(d: usize) -> (c: char)
    requires
        d < 10,
    ensures
        c == digit_char(d as nat),
{
    if d == 0 { '0' }
    else if d == 1 { '1' }
    else if d == 2 { '2' }
    else if d == 3 { '3' }
    else if d == 4 { '4' }
    else if d == 5 { '5' }
    else if d == 6 { '6' }
    else if d == 7 { '7' }
    else if d == 8 { '8' }
    else { '9' }
}

/// Decimal rendering of `n` (as `usize::to_string` gives it).
pub fn usize_to_decimal(n: usize) -> (r: String)
    ensures
        r@ == decimal(n as nat),
    decreases n,
{
    if n < 10 {
        let mut r = String::new();
        push_char(&mut r, digit_char_exec(n));
        assert(r@ =~= decimal(n as nat));
        r
    } else {
        let mut r = usize_to_decimal(n / 10);
        push_char(&mut r, digit_char_exec(n % 10));
        assert(r@ =~= decimal(n as nat));
        r
    }
}

/// A string literal's contents as a `String`.
pub fn lit(s: &str) -> (r: String)
    ensures
        r@ == s@,
{
    let cs = chars_of(s);
    string_from_chars(cs.as_slice())
}

/// A copy of `s`.
pub fn copy_string(s: &String) -> (r: String)
    ensures
        r@ == s@,
{
    s.clone()
}

} // verus!

verus! {

/// Splits `s` at every `::` from left to right (as `str::split("::")` does).
pub open spec fn split_sep(s: Seq<char>) -> Seq<Seq<char>>
    decreases s.len(),
{
    if s.len() < 2 {
        seq![s]
    } else if s[0] == ':' && s[1] == ':' {
        seq![Seq::<char>::empty()] + split_sep(s.subrange(2, s.len() as int))
    } else {
        let r = split_sep(s.subrange(1, s.len() as int));
        r.update(0, seq![s[0]] + r[0])
    }
}

/// A split never yields an empty list.
pub proof fn lemma_split_nonempty(s: Seq<char>)
    ensures
        split_sep(s).len() >= 1,
    decreases s.len(),
{
    if s.len() >= 2 {
        if s[0] == ':' && s[1] == ':' {
            lemma_split_nonempty(s.subrange(2, s.len() as int));
        } else {
            lemma_split_nonempty(s.subrange(1, s.len() as int));
        }
    }
}

/// Joins segments with `::` between them.
pub open spec fn join_sep(segs: Seq<Seq<char>>) -> Seq<char>
    decreases segs.len(),
{
    if segs.len() == 0 {
        Seq::empty()
    } else if segs.len() == 1 {
        segs[0]
    } else {
        join_sep(segs.drop_last()) + sep() + segs.last()
    }
}

/// Splits a string at every `::`.
pub fn split_path(s: &str) -> (r: Vec<String>)
    ensures
        r@.len() == split_sep(s@).len(),
        forall|i: int| 0 <= i < r@.len() ==> #[trigger] r@[i]@ == split_sep(s@)[i],
{
    let cs = chars_of(s);
    let n = cs.len();
    let mut done: Vec<String> = Vec::new();
    let mut cur: Vec<char> = Vec::new();
    let mut i: usize = 0;
    proof {
        lemma_split_nonempty(s@);
        assert(s@.subrange(0, s@.len() as int) =~= s@);
    }
    while i < n
        invariant
            cs@ == s@,
            n == cs@.len(),
            i <= n,
            split_sep(s@).len() >= 1,
            ({
                let r = split_sep(cs@.subrange(i as int, n as int));
                &&& r.len() >= 1
                &&& split_sep(s@) =~= Seq::new(done@.len() as nat, |k: int| done@[k]@) + r.update(0, cur@ + r[0])
            }),
        decreases n - i,
    {
        let ghost rest = cs@.subrange(i as int, n as int);
        if i + 1 < n && cs[i] == ':' && cs[i + 1] == ':' {
            let ghost r2 = split_sep(cs@.subrange(i + 2, n as int));
            proof {
                assert(rest.subrange(2, rest.len() as int) =~= cs@.subrange(i + 2, n as int));
                lemma_split_nonempty(cs@.subrange(i + 2, n as int));
            }
            let seg = string_from_chars(cur.as_slice());
            let ghost old_done = Seq::new(done@.len() as nat, |k: int| done@[k]@);
            done.push(seg);
            cur = Vec::new();
            i = i + 2;
            proof {
                let nd = Seq::new(done@.len() as nat, |k: int| done@[k]@);
                assert(nd =~= old_done.push(seg@));
                assert(split_sep(rest) == seq![Seq::<char>::empty()] + r2);
                assert(split_sep(s@) =~= nd + r2.update(0, cur@ + r2[0]));
            }
        } else {
            let c = cs[i];
            let ghost r2 = split_sep(cs@.subrange(i + 1, n as int));
            proof {
                assert(rest.subrange(1, rest.len() as int) =~= cs@.subrange(i + 1, n as int));
                lemma_split_nonempty(cs@.subrange(i + 1, n as int));
                if rest.len() >= 2 {
                    assert(split_sep(rest) == r2.update(0, seq![c] + r2[0]));
                } else {
                    assert(rest.len() == 1);
                    assert(cs@.subrange(i + 1, n as int) =~= Seq::<char>::empty());
                    assert(r2 =~= seq![Seq::<char>::empty()]);
                    assert(split_sep(rest) == seq![rest]);
                    assert(rest =~= seq![c]);
                    assert(seq![c] + r2[0] =~= seq![c]);
                }
            }
            let ghost old_cur = cur@;
            cur.push(c);
            i = i + 1;
            proof {
                assert(cur@ =~= old_cur + seq![c]);
                assert(old_cur + (seq![c] + r2[0]) =~= cur@ + r2[0]);
            }
        }
    }
    proof {
        assert(cs@.subrange(n as int, n as int) =~= Seq::<char>::empty());
    }
    let seg = string_from_chars(cur.as_slice());
    let ghost old_done = Seq::new(done@.len() as nat, |k: int| done@[k]@);
    done.push(seg);
    proof {
        let nd = Seq::new(done@.len() as nat, |k: int| done@[k]@);
        assert(nd =~= old_done.push(seg@));
        assert(cur@ + Seq::<char>::empty() =~= cur@);
        assert(split_sep(s@) =~= nd);
    }
    done
}

/// Joins strings with `::` between them.
pub fn join_segments(segs: &Vec<String>) -> (r: String)
    ensures
        r@ == join_sep(Seq::new(segs@.len() as nat, |k: int| segs@[k]@)),
{
    let mut r = String::new();
    let mut i: usize = 0;
    while i < segs.len()
        invariant
            i <= segs@.len(),
            r@ == join_sep(Seq::new(i as nat, |k: int| segs@[k]@)),
        decreases segs@.len() - i,
    {
        let ghost prev = Seq::new(i as nat, |k: int| segs@[k]@);
        if i > 0 {
            push_char(&mut r, ':');
            push_char(&mut r, ':');
        }
        append_str(&mut r, segs[i].as_str());
        proof {
            let next = Seq::new((i + 1) as nat, |k: int| segs@[k]@);
            assert(next.drop_last() =~= prev);
            if i > 0 {
                assert(r@ =~= join_sep(prev) + sep() + segs@[i as int]@);
            } else {
                assert(r@ =~= segs@[0]@);
            }
        }
        i += 1;
    }
    assert(Seq::new(i as nat, |k: int| segs@[k]@) =~= Seq::new(segs@.len() as nat, |k: int| segs@[k]@));
    r
}

/// Length of the longest common prefix of two character sequences.
pub open spec fn common_prefix(a: Seq<char>, b: Seq<char>) -> nat
    decreases a.len(),
{
    if a.len() == 0 || b.len() == 0 || a[0] != b[0] {
        0
    } else {
        1 + common_prefix(a.drop_first(), b.drop_first())
    }
}

/// Number of leading characters that two strings share.
pub fn common_prefix_len(path1: &str, path2: &str) -> (n: usize)
    ensures
        n == common_prefix(path1@, path2@),
{
    let a = chars_of(path1);
    let b = chars_of(path2);
    let mut len: usize = 0;
    proof {
        assert(a@.subrange(0, a@.len() as int) =~= a@);
        assert(b@.subrange(0, b@.len() as int) =~= b@);
    }
    while len < a.len() && len < b.len()
        invariant
            a@ == path1@,
            b@ == path2@,
            len <= a@.len(),
            len <= b@.len(),
            common_prefix(a@, b@) == len + common_prefix(a@.subrange(len as int, a@.len() as int), b@.subrange(len as int, b@.len() as int)),
        decreases a@.len() - len,
    {
        let ghost sa = a@.subrange(len as int, a@.len() as int);
        let ghost sb = b@.subrange(len as int, b@.len() as int);
        if a[len] != b[len] {
            assert(sa[0] != sb[0]);
            return len;
        }
        assert(sa.drop_first() =~= a@.subrange(len + 1, a@.len() as int));
        assert(sb.drop_first() =~= b@.subrange(len + 1, b@.len() as int));
        len += 1;
    }
    len
}

} // verus!

verus! {

/// Lower-case hexadecimal digit for `n < 16`.
pub open spec fn hex_char(n: int) -> char {
    if n == 0 { '0' } else if n == 1 { '1' } else if n == 2 { '2' } else if n == 3 { '3' }
    else if n == 4 { '4' } else if n == 5 { '5' } else if n == 6 { '6' } else if n == 7 { '7' }
    else if n == 8 { '8' } else if n == 9 { '9' } else if n == 10 { 'a' } else if n == 11 { 'b' }
    else if n == 12 { 'c' } else if n == 13 { 'd' } else if n == 14 { 'e' } else { 'f' }
}

fn hex_char_exec(n: u32) -> (c: char)
    requires
        n < 16,
    ensures
        c == hex_char(n as int),
{
    if n == 0 { '0' } else if n == 1 { '1' } else if n == 2 { '2' } else if n == 3 { '3' }
    else if n == 4 { '4' } else if n == 5 { '5' } else if n == 6 { '6' } else if n == 7 { '7' }
    else if n == 8 { '8' } else if n == 9 { '9' } else if n == 10 { 'a' } else if n == 11 { 'b' }
    else if n == 12 { 'c' } else if n == 13 { 'd' } else if n == 14 { 'e' } else { 'f' }
}

/// How `{:?}` writes one character inside a quoted string (ASCII control
/// characters as `\u{..}`, the usual short escapes, everything else as is).
pub open spec fn debug_escape(c: char) -> Seq<char> {
    let n = c as u32;
    if c == '\t' {
        seq!['\\', 't']
    } else if c == '\r' {
        seq!['\\', 'r']
    } else if c == '\n' {
        seq!['\\', 'n']
    } else if c == '\\' {
        seq!['\\', '\\']
    } else if c == '"' {
        seq!['\\', '"']
    } else if c == '\0' {
        seq!['\\', '0']
    } else if n < 16 {
        seq!['\\', 'u', '{', hex_char(n as int), '}']
    } else if n < 32 || n == 127 {
        seq!['\\', 'u', '{', hex_char(n as int / 16), hex_char(n as int % 16), '}']
    } else {
        seq![c]
    }
}

/// The escaped characters of `s`.
pub open spec fn debug_body(s: Seq<char>) -> Seq<char>
    decreases s.len(),
{
    if s.len() == 0 {
        Seq::empty()
    } else {
        debug_body(s.drop_last()) + debug_escape(s.last())
    }
}

/// `{:?}` of a string: quoted and escaped.
pub open spec fn debug_str(s: Seq<char>) -> Seq<char> {
    seq!['"'] + debug_body(s) + seq!['"']
}

/// Appends the `{:?}` rendering of `s` to `out`.
pub fn push_debug_str(out: &mut String, s: &str)
    ensures
        final(out)@ == old(out)@ + debug_str(s@),
{
    let cs = chars_of(s);
    let ghost o = out@;
    push_char(out, '"');
    let mut i: usize = 0;
    assert(cs@.take(0) =~= Seq::<char>::empty());
    while i < cs.len()
        invariant
            i <= cs@.len(),
            cs@ == s@,
            out@ == o + seq!['"'] + debug_body(cs@.take(i as int)),
        decreases cs@.len() - i,
    {
        let c = cs[i];
        let ghost before = out@;
        let n = c as u32;
        if c == '\t' {
            push_char(out, '\\'); push_char(out, 't');
        } else if c == '\r' {
            push_char(out, '\\'); push_char(out, 'r');
        } else if c == '\n' {
            push_char(out, '\\'); push_char(out, 'n');
        } else if c == '\\' {
            push_char(out, '\\'); push_char(out, '\\');
        } else if c == '"' {
            push_char(out, '\\'); push_char(out, '"');
        } else if c == '\0' {
            push_char(out, '\\'); push_char(out, '0');
        } else if n < 16 {
            push_char(out, '\\'); push_char(out, 'u'); push_char(out, '{');
            push_char(out, hex_char_exec(n)); push_char(out, '}');
        } else if n < 32 || n == 127 {
            push_char(out, '\\'); push_char(out, 'u'); push_char(out, '{');
            push_char(out, hex_char_exec(n / 16)); push_char(out, hex_char_exec(n % 16)); push_char(out, '}');
        } else {
            push_char(out, c);
        }
        assert(out@ =~= before + debug_escape(c));
        let ghost t = cs@.take(i + 1);
        assert(t.drop_last() =~= cs@.take(i as int));
        i += 1;
    }
    push_char(out, '"');
    assert(cs@.take(cs@.len() as int) =~= cs@);
    assert(out@ =~= o + debug_str(s@));
}

/// Appends a string literal's characters.
pub fn push_lit(out: &mut String, s: &str)
    ensures
        final(out)@ == old(out)@ + s@,
{
    append_str(out, s);
}

} // verus!
