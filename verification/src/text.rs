//! Small text helpers shared by the modules: equality of string slices,
//! conversion between strings and character vectors, and building strings.

use vstd::prelude::*;

verus! {

/// Whether two string slices hold the same characters.
pub(crate) fn str_eq(a: &str, b: &str) -> (r: bool)
    ensures
        r == (a@ == b@),
{
    let x = chars_of(a);
    let y = chars_of(b);
    if x.len() != y.len() {
        return false;
    }
    let mut i: usize = 0;
    while i < x.len()
        invariant
            x@ == a@,
            y@ == b@,
            x@.len() == y@.len(),
            i <= x@.len(),
            forall|j: int| 0 <= j < i ==> x@[j] == y@[j],
        decreases x.len() - i,
    {
        if x[i] != y[i] {
            return false;
        }
        i = i + 1;
    }
    proof {
        assert(x@ =~= y@);
    }
    true
}

/// Appends one character to a string (std `String::push`).
/// Trusted: the string afterwards is the old one followed by `c`.
#[verifier::external_body]
pub(crate) fn push_char(s: &mut String, c: char)
    ensures
        final(s)@ == old(s)@.push(c),
{
    s.push(c)
}

/// The characters of a string slice, in order.
pub fn chars_of(s: &str) -> (v: Vec<char>)
    ensures
        v@ == s@,
{
    let mut v: Vec<char> = Vec::new();
    for c in it: s.chars()
        invariant
            v@ == it.seq().take(it.index() as int),
            it.seq() == s@,
    {
        v.push(c);
    }
    v
}

/// Builds a string from the characters `v[from..to]`.
pub fn string_from_range(v: &Vec<char>, from: usize, to: usize) -> (s: String)
    requires
        from <= to <= v.len(),
    ensures
        s@ == v@.subrange(from as int, to as int),
{
    let mut s = String::new();
    let mut i: usize = from;
    while i < to
        invariant
            from <= i <= to <= v.len(),
            s@ == v@.subrange(from as int, i as int),
        decreases to - i,
    {
        push_char(&mut s, v[i]);
        proof {
            assert(v@.subrange(from as int, i as int).push(v@[i as int]) =~= v@.subrange(
                from as int,
                i + 1,
            ));
        }
        i = i + 1;
    }
    s
}

/// Builds a string from a sequence of characters.
pub fn string_from_chars(v: &Vec<char>) -> (s: String)
    ensures
        s@ == v@,
{
    let s = string_from_range(v, 0, v.len());
    proof {
        assert(v@.subrange(0, v@.len() as int) =~= v@);
    }
    s
}

/// `i` is the first position of `c` in `s`.
pub open spec fn is_first_index(s: Seq<char>, c: char, i: int) -> bool {
    &&& 0 <= i < s.len()
    &&& s[i] == c
    &&& forall|j: int| 0 <= j < i ==> s[j] != c
}

/// The first position of `c` in `s`, or -1 when `c` does not occur.
pub open spec fn first_index_of(s: Seq<char>, c: char) -> int {
    if exists|i: int| is_first_index(s, c, i) {
        choose|i: int| is_first_index(s, c, i)
    } else {
        -1
    }
}

/// The first position of a character is unique.
pub proof fn lemma_first_index_of(s: Seq<char>, c: char, i: int)
    requires
        is_first_index(s, c, i),
    ensures
        first_index_of(s, c) == i,
{
    let k = choose|k: int| is_first_index(s, c, k);
    assert(is_first_index(s, c, k));
    if k < i {
        assert(s[k] != c);
    } else if i < k {
        assert(s[i] != c);
    }
}

/// The first position of a character, when there is one, lies inside the sequence.
pub proof fn lemma_first_index_bounds(s: Seq<char>, c: char)
    ensures
        -1 <= first_index_of(s, c) < s.len(),
        first_index_of(s, c) >= 0 ==> is_first_index(s, c, first_index_of(s, c)),
{
    if exists|i: int| is_first_index(s, c, i) {
        let k = choose|i: int| is_first_index(s, c, i);
        assert(is_first_index(s, c, k));
    }
}

/// A sequence without `c` has no first position of it.
pub proof fn lemma_first_index_of_absent(s: Seq<char>, c: char)
    requires
        !s.contains(c),
    ensures
        first_index_of(s, c) == -1,
{
    if exists|i: int| is_first_index(s, c, i) {
        let k = choose|i: int| is_first_index(s, c, i);
        assert(s.contains(c)) by {
            assert(s[k] == c);
        }
    }
}

/// Finds the first position at or after `from` where `v` holds `c`.
pub fn find_char_from(v: &Vec<char>, from: usize, c: char) -> (r: Option<usize>)
    requires
        from <= v.len(),
    ensures
        match r {
            Some(i) => from <= i < v.len() && v@[i as int] == c && forall|j: int|
                from <= j < i ==> v@[j] != c,
            None => forall|j: int| from <= j < v.len() ==> v@[j] != c,
        },
{
    let mut i: usize = from;
    while i < v.len()
        invariant
            from <= i <= v.len(),
            forall|j: int| from <= j < i ==> v@[j] != c,
        decreases v.len() - i,
    {
        if v[i] == c {
            return Some(i);
        }
        i = i + 1;
    }
    None
}

/// Finds the first position of `c` in `v`.
pub fn find_char(v: &Vec<char>, c: char) -> (r: Option<usize>)
    ensures
        match r {
            Some(i) => i < v.len() && first_index_of(v@, c) == i,
            None => !v@.contains(c) && first_index_of(v@, c) == -1,
        },
{
    let r = find_char_from(v, 0, c);
    proof {
        match r {
            Some(i) => {
                lemma_first_index_of(v@, c, i as int);
            },
            None => {
                assert(!v@.contains(c));
                lemma_first_index_of_absent(v@, c);
            },
        }
    }
    r
}

/// Name for the lowercase form of a text, as std `str::to_lowercase` computes it
/// (the full Unicode lowercase mapping).
pub uninterp spec fn lowercase(s: Seq<char>) -> Seq<char>;

/// std `str::to_lowercase`.
/// Trusted: the result is `lowercase(s)`, a function of the text alone.
#[verifier::external_body]
pub(crate) fn to_lowercase(s: &str) -> (r: String)
    ensures
        r@ == lowercase(s@),
{
    s.to_lowercase()
}

/// The decimal digits of a natural number.
pub open spec fn decimal_digits(n: nat) -> Seq<char>
    decreases n,
{
    if n < 10 {
        seq![(n + 48) as char]
    } else {
        decimal_digits(n / 10).push(((n % 10) + 48) as char)
    }
}

/// The decimal text of an integer, with a leading `-` when negative.
pub open spec fn decimal_text(n: int) -> Seq<char> {
    if n < 0 {
        seq!['-'] + decimal_digits((-n) as nat)
    } else {
        decimal_digits(n as nat)
    }
}

/// Appends the characters of `t` to `s`.
pub fn push_text(s: &mut String, t: &str)
    ensures
        final(s)@ == old(s)@ + t@,
{
    let v = chars_of(t);
    let mut i: usize = 0;
    while i < v.len()
        invariant
            i <= v@.len(),
            v@ == t@,
            s@ == old(s)@ + v@.take(i as int),
        decreases v.len() - i,
    {
        push_char(s, v[i]);
        proof {
            assert(old(s)@ + v@.take(i + 1) =~= (old(s)@ + v@.take(i as int)).push(v@[i as int]));
        }
        i = i + 1;
    }
    proof {
        assert(v@.take(v@.len() as int) =~= v@);
    }
}

/// Appends the decimal digits of `n` to `s`.
pub fn push_digits(s: &mut String, n: u64)
    ensures
        final(s)@ == old(s)@ + decimal_digits(n as nat),
    decreases n,
{
    if n >= 10 {
        push_digits(s, n / 10);
    }
    let d: u8 = (n % 10) as u8 + 48;
    let c = d as char;
    push_char(s, c);
    proof {
        if n >= 10 {
            assert(old(s)@ + decimal_digits(n as nat) =~= (old(s)@ + decimal_digits((n / 10) as nat)).push(c));
        } else {
            assert(old(s)@ + decimal_digits(n as nat) =~= old(s)@.push(c));
        }
    }
}

} // verus!
