//! Character-level primitives for the pattern language: trimming,
//! bracket-depth-aware splitting, searching, and joining, together with the
//! sequence-level specification functions that the rest of the crate's
//! contracts are written against.

use vstd::prelude::*;
use vstd::string::StrSliceExecFns;

verus! {

/// Relies on `alloc::string::String::push`: appends the given `char` to the
/// end of the string.
pub assume_specification[ String::push ](s: &mut String, c: char)
    ensures
        final(s)@ == old(s)@.push(c),
;

/// The whitespace characters the pattern language ignores around tokens.
pub open spec fn is_space(c: char) -> bool {
    c == ' ' || c == '\t' || c == '\n' || c == '\r'
}

/// `s` without its leading whitespace.
pub open spec fn trim_start(s: Seq<char>) -> Seq<char>
    decreases s.len(),
{
    if s.len() > 0 && is_space(s[0]) {
        trim_start(s.drop_first())
    } else {
        s
    }
}

/// `s` without its trailing whitespace.
pub open spec fn trim_end(s: Seq<char>) -> Seq<char>
    decreases s.len(),
{
    if s.len() > 0 && is_space(s.last()) {
        trim_end(s.drop_last())
    } else {
        s
    }
}

/// `s` without leading or trailing whitespace.
pub open spec fn trim(s: Seq<char>) -> Seq<char> {
    trim_end(trim_start(s))
}

/// How one character changes the angle-bracket nesting depth.
pub open spec fn depth_delta(c: char) -> int {
    if c == '<' {
        1
    } else if c == '>' {
        -1
    } else {
        0
    }
}

pub open spec fn contains_char(s: Seq<char>, c: char) -> bool {
    exists|i: int| 0 <= i < s.len() && s[i] == c
}

/// Index of the first occurrence of `c` in `s`, or -1 if there is none.
pub open spec fn find_char(s: Seq<char>, c: char) -> int
    decreases s.len(),
{
    if s.len() == 0 {
        -1
    } else if s[0] == c {
        0
    } else {
        let r = find_char(s.drop_first(), c);
        if r == -1 {
            -1
        } else {
            r + 1
        }
    }
}

/// Index of the last occurrence of `c` in `s`, or -1 if there is none.
pub open spec fn find_last_char(s: Seq<char>, c: char) -> int
    decreases s.len(),
{
    if s.len() == 0 {
        -1
    } else if s.last() == c {
        s.len() - 1
    } else {
        find_last_char(s.drop_last(), c)
    }
}

/// One step of splitting `s` on occurrences of `delim` that sit at
/// angle-bracket depth zero: `cur` is the piece being accumulated, `acc` the
/// pieces already closed.
pub open spec fn split_top_rec(
    s: Seq<char>,
    depth: int,
    cur: Seq<char>,
    acc: Seq<Seq<char>>,
    delim: char,
) -> Seq<Seq<char>>
    decreases s.len(),
{
    if s.len() == 0 {
        acc.push(cur)
    } else if s[0] == delim && depth == 0 {
        split_top_rec(s.drop_first(), depth, Seq::empty(), acc.push(cur), delim)
    } else {
        split_top_rec(s.drop_first(), depth + depth_delta(s[0]), cur.push(s[0]), acc, delim)
    }
}

/// The pieces of `s` between occurrences of `delim` at bracket depth zero.
/// Delimiters nested inside `<` `>` do not split. The result always has at
/// least one (possibly empty) piece.
pub open spec fn split_top(s: Seq<char>, delim: char) -> Seq<Seq<char>> {
    split_top_rec(s, 0, Seq::empty(), Seq::empty(), delim)
}

/// The parts joined by a comma and a space, the separator the pattern
/// language prints between parameter slots.
pub open spec fn join_comma(parts: Seq<Seq<char>>) -> Seq<char>
    decreases parts.len(),
{
    if parts.len() == 0 {
        Seq::empty()
    } else {
        parts[0] + join_comma_rest(parts.drop_first())
    }
}

pub open spec fn join_comma_rest(parts: Seq<Seq<char>>) -> Seq<char>
    decreases parts.len(),
{
    if parts.len() == 0 {
        Seq::empty()
    } else {
        seq![',', ' '] + parts[0] + join_comma_rest(parts.drop_first())
    }
}

/// On a vector of characters the deep view and the plain view agree.
pub proof fn lemma_dv_chars(v: Vec<char>)
    ensures
        v.deep_view() == v@,
{
    assert(v.deep_view() =~= v@);
}

pub fn is_space_exec(c: char) -> (b: bool)
    ensures
        b == is_space(c),
{
    c == ' ' || c == '\t' || c == '\n' || c == '\r'
}

/// The characters of `s`, in order.
pub fn str_to_chars(s: &str) -> (v: Vec<char>)
    ensures
        v@ == s@,
{
    let n = s.unicode_len();
    let mut v: Vec<char> = Vec::new();
    let mut i: usize = 0;
    while i < n
        invariant
            i <= n,
            n == s@.len(),
            v@ == s@.take(i as int),
        decreases n - i,
    {
        let c = s.get_char(i);
        v.push(c);
        i = i + 1;
        proof {
            assert(v@ =~= s@.take(i as int));
        }
    }
    proof {
        assert(v@ =~= s@);
    }
    v
}

/// The string holding exactly the characters of `v`.
pub fn chars_to_string(v: &Vec<char>) -> (s: String)
    ensures
        s@ == v@,
{
    let mut s = String::new();
    let mut i: usize = 0;
    while i < v.len()
        invariant
            i <= v.len(),
            s@ == v@.take(i as int),
        decreases v.len() - i,
    {
        s.push(v[i]);
        i = i + 1;
        proof {
            assert(s@ =~= v@.take(i as int));
        }
    }
    proof {
        assert(s@ =~= v@);
    }
    s
}

/// Appends the characters of `src` to `dst`.
pub fn append_chars(dst: &mut Vec<char>, src: &Vec<char>)
    ensures
        final(dst)@ == old(dst)@ + src@,
{
    let mut i: usize = 0;
    while i < src.len()
        invariant
            i <= src.len(),
            dst@ == old(dst)@ + src@.take(i as int),
        decreases src.len() - i,
    {
        dst.push(src[i]);
        i = i + 1;
        proof {
            assert(dst@ =~= old(dst)@ + src@.take(i as int));
        }
    }
    proof {
        assert(dst@ =~= old(dst)@ + src@);
    }
}

/// A copy of `v`.
pub fn copy_chars(v: &Vec<char>) -> (r: Vec<char>)
    ensures
        r@ == v@,
{
    let mut r: Vec<char> = Vec::new();
    append_chars(&mut r, v);
    proof {
        assert(r@ =~= v@);
    }
    r
}

/// A copy of `v[a..b]`.
pub fn subvec(v: &Vec<char>, a: usize, b: usize) -> (r: Vec<char>)
    requires
        a <= b <= v@.len(),
    ensures
        r@ == v@.subrange(a as int, b as int),
{
    let mut r: Vec<char> = Vec::new();
    let mut i: usize = a;
    while i < b
        invariant
            a <= i <= b <= v@.len(),
            r@ == v@.subrange(a as int, i as int),
        decreases b - i,
    {
        r.push(v[i]);
        i = i + 1;
        proof {
            assert(r@ =~= v@.subrange(a as int, i as int));
        }
    }
    r
}

pub fn eq_chars(a: &Vec<char>, b: &Vec<char>) -> (r: bool)
    ensures
        r == (a@ == b@),
{
    if a.len() != b.len() {
        return false;
    }
    let mut i: usize = 0;
    while i < a.len()
        invariant
            i <= a.len(),
            a@.len() == b@.len(),
            forall|j: int| 0 <= j < i ==> a@[j] == b@[j],
        decreases a.len() - i,
    {
        if a[i] != b[i] {
            return false;
        }
        i = i + 1;
    }
    proof {
        assert(a@ =~= b@);
    }
    true
}

pub fn str_eq(a: &str, b: &str) -> (r: bool)
    ensures
        r == (a@ == b@),
{
    let va = str_to_chars(a);
    let vb = str_to_chars(b);
    eq_chars(&va, &vb)
}

pub fn contains_char_vec(v: &Vec<char>, c: char) -> (r: bool)
    ensures
        r == contains_char(v@, c),
{
    let mut i: usize = 0;
    while i < v.len()
        invariant
            i <= v.len(),
            forall|j: int| 0 <= j < i ==> v@[j] != c,
        decreases v.len() - i,
    {
        if v[i] == c {
            return true;
        }
        i = i + 1;
    }
    false
}

pub proof fn lemma_trim_start_skip(s: Seq<char>, a: int)
    requires
        0 <= a <= s.len(),
        forall|j: int| 0 <= j < a ==> is_space(s[j]),
        a == s.len() || !is_space(s[a]),
    ensures
        trim_start(s) == s.skip(a),
    decreases a,
{
    if a == 0 {
        assert(s.skip(0) =~= s);
    } else {
        assert(is_space(s[0]));
        lemma_trim_start_skip(s.drop_first(), a - 1);
        assert(s.drop_first().skip(a - 1) =~= s.skip(a));
    }
}

pub proof fn lemma_trim_end_take(s: Seq<char>, b: int)
    requires
        0 <= b <= s.len(),
        forall|j: int| b <= j < s.len() ==> is_space(s[j]),
        b == 0 || !is_space(s[b - 1]),
    ensures
        trim_end(s) == s.take(b),
    decreases s.len() - b,
{
    if b == s.len() {
        if s.len() > 0 && is_space(s.last()) {
            assert(!is_space(s[b - 1]));
            assert(false);
        }
        assert(s.take(b) =~= s);
    } else {
        assert(is_space(s.last()));
        lemma_trim_end_take(s.drop_last(), b);
        assert(s.drop_last().take(b) =~= s.take(b));
    }
}

/// `v` without leading or trailing whitespace.
pub fn trim_chars(v: &Vec<char>) -> (r: Vec<char>)
    ensures
        r@ == trim(v@),
{
    let n = v.len();
    let mut a: usize = 0;
    while a < n && is_space_exec(v[a])
        invariant
            a <= n,
            n == v@.len(),
            forall|j: int| 0 <= j < a ==> is_space(v@[j]),
        decreases n - a,
    {
        a = a + 1;
    }
    let mut e: usize = n;
    while e > a && is_space_exec(v[e - 1])
        invariant
            a <= e <= n,
            n == v@.len(),
            forall|j: int| e <= j < n ==> is_space(v@[j]),
        decreases e,
    {
        e = e - 1;
    }
    let mut r: Vec<char> = Vec::new();
    let mut i: usize = a;
    while i < e
        invariant
            a <= i <= e <= n,
            n == v@.len(),
            r@ == v@.subrange(a as int, i as int),
        decreases e - i,
    {
        r.push(v[i]);
        i = i + 1;
        proof {
            assert(r@ =~= v@.subrange(a as int, i as int));
        }
    }
    proof {
        lemma_trim_start_skip(v@, a as int);
        let s = v@.skip(a as int);
        assert(forall|j: int| e - a <= j < s.len() ==> is_space(#[trigger] s[j]));
        if e > a {
            assert(!is_space(s[e - a - 1]));
        }
        lemma_trim_end_take(s, e - a);
        assert(s.take(e - a) =~= v@.subrange(a as int, e as int));
        assert(r@ =~= trim(v@));
    }
    r
}

proof fn lemma_find_char_props(s: Seq<char>, c: char)
    ensures
        find_char(s, c) == -1 ==> forall|j: int| 0 <= j < s.len() ==> s[j] != c,
        find_char(s, c) != -1 ==> {
            let r = find_char(s, c);
            &&& 0 <= r < s.len()
            &&& s[r] == c
            &&& forall|j: int| 0 <= j < r ==> s[j] != c
        },
    decreases s.len(),
{
    if s.len() > 0 && s[0] != c {
        lemma_find_char_props(s.drop_first(), c);
        assert(forall|j: int| 1 <= j < s.len() ==> s[j] == s.drop_first()[j - 1]);
    }
}

proof fn lemma_find_last_char_props(s: Seq<char>, c: char)
    ensures
        find_last_char(s, c) == -1 ==> forall|j: int| 0 <= j < s.len() ==> s[j] != c,
        find_last_char(s, c) != -1 ==> {
            let r = find_last_char(s, c);
            &&& 0 <= r < s.len()
            &&& s[r] == c
            &&& forall|j: int| r < j < s.len() ==> s[j] != c
        },
    decreases s.len(),
{
    if s.len() > 0 && s.last() != c {
        lemma_find_last_char_props(s.drop_last(), c);
        assert(forall|j: int| 0 <= j < s.len() - 1 ==> s[j] == s.drop_last()[j]);
    }
}

/// Index of the first occurrence of `c` in `v`, as `find_char` gives it.
pub fn find_char_vec(v: &Vec<char>, c: char) -> (r: Option<usize>)
    ensures
        match r {
            Some(i) => i < v@.len() && find_char(v@, c) == i as int,
            None => find_char(v@, c) == -1,
        },
{
    let mut i: usize = 0;
    while i < v.len()
        invariant
            i <= v.len(),
            forall|j: int| 0 <= j < i ==> v@[j] != c,
        decreases v.len() - i,
    {
        if v[i] == c {
            proof {
                lemma_find_char_props(v@, c);
            }
            return Some(i);
        }
        i = i + 1;
    }
    proof {
        lemma_find_char_props(v@, c);
    }
    None
}

/// Index of the last occurrence of `c` in `v`, as `find_last_char` gives it.
pub fn find_last_char_vec(v: &Vec<char>, c: char) -> (r: Option<usize>)
    ensures
        match r {
            Some(i) => i < v@.len() && find_last_char(v@, c) == i as int,
            None => find_last_char(v@, c) == -1,
        },
{
    let mut i: usize = v.len();
    while i > 0
        invariant
            i <= v.len(),
            forall|j: int| i <= j < v@.len() ==> v@[j] != c,
        decreases i,
    {
        i = i - 1;
        if v[i] == c {
            proof {
                lemma_find_last_char_props(v@, c);
            }
            return Some(i);
        }
    }
    proof {
        lemma_find_last_char_props(v@, c);
    }
    None
}

/// The pieces of `v` between `delim` occurrences at bracket depth zero.
pub fn split_top_vec(v: &Vec<char>, delim: char) -> (r: Vec<Vec<char>>)
    ensures
        r.deep_view() == split_top(v@, delim),
{
    let mut acc: Vec<Vec<char>> = Vec::new();
    let mut cur: Vec<char> = Vec::new();
    let mut depth: i128 = 0;
    let mut i: usize = 0;
    proof {
        assert(v@.skip(0) =~= v@);
        assert(acc.deep_view() =~= Seq::<Seq<char>>::empty());
    }
    while i < v.len()
        invariant
            i <= v.len(),
            -(i as int) <= depth <= i as int,
            split_top_rec(v@.skip(i as int), depth as int, cur@, acc.deep_view(), delim)
                == split_top(v@, delim),
        decreases v.len() - i,
    {
        let ghost pre_rest = v@.skip(i as int);
        proof {
            assert(pre_rest[0] == v@[i as int]);
            assert(pre_rest.drop_first() =~= v@.skip(i as int + 1));
        }
        let c = v[i];
        if c == delim && depth == 0 {
            let ghost old_acc = acc.deep_view();
            let ghost cur_snapshot = cur;
            acc.push(cur);
            cur = Vec::new();
            proof {
                lemma_dv_chars(cur_snapshot);
                assert(acc.deep_view() =~= old_acc.push(cur_snapshot@));
            }
        } else {
            if c == '<' {
                depth = depth + 1;
            } else if c == '>' {
                depth = depth - 1;
            }
            cur.push(c);
        }
        i = i + 1;
    }
    proof {
        assert(v@.skip(i as int) =~= Seq::<char>::empty());
    }
    let ghost old_acc = acc.deep_view();
    let ghost cur_snapshot = cur;
    acc.push(cur);
    proof {
        lemma_dv_chars(cur_snapshot);
        assert(acc.deep_view() =~= old_acc.push(cur_snapshot@));
    }
    acc
}

/// The parts joined by `", "`.
pub fn join_comma_vec(parts: &Vec<Vec<char>>) -> (r: Vec<char>)
    ensures
        r@ == join_comma(parts.deep_view()),
{
    let mut r: Vec<char> = Vec::new();
    if parts.len() == 0 {
        return r;
    }
    append_chars(&mut r, &parts[0]);
    proof {
        lemma_dv_chars(parts@[0]);
        assert(r@ =~= parts.deep_view()[0]);
        assert(parts.deep_view().drop_first() =~= parts.deep_view().skip(1));
    }
    let mut i: usize = 1;
    while i < parts.len()
        invariant
            1 <= i <= parts.len(),
            parts.deep_view().len() == parts@.len(),
            r@ + join_comma_rest(parts.deep_view().skip(i as int))
                == join_comma(parts.deep_view()),
        decreases parts.len() - i,
    {
        let ghost rest = parts.deep_view().skip(i as int);
        let ghost old_r = r@;
        proof {
            assert(rest[0] == parts.deep_view()[i as int]);
            assert(rest.drop_first() =~= parts.deep_view().skip(i as int + 1));
        }
        r.push(',');
        r.push(' ');
        append_chars(&mut r, &parts[i]);
        proof {
            lemma_dv_chars(parts@[i as int]);
            assert(r@ =~= old_r + (seq![',', ' '] + rest[0]));
            assert(r@ + join_comma_rest(parts.deep_view().skip(i as int + 1))
                =~= old_r + join_comma_rest(rest));
        }
        i = i + 1;
    }
    proof {
        assert(parts.deep_view().skip(i as int) =~= Seq::<Seq<char>>::empty());
        assert(r@ =~= r@ + join_comma_rest(Seq::empty()));
    }
    r
}

} // verus!
