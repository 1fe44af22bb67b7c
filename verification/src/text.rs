//! Text primitives over sequences of `char`, with the byte-level view that
//! `str` indexing uses.

use vstd::prelude::*;

verus! {

// ───────────────────────── Byte lengths ─────────────────────────

/// Number of bytes that the UTF-8 encoding of `c` takes.
pub open spec fn char_width(c: char) -> nat {
    if (c as u32) < 0x80 {
        1
    } else if (c as u32) < 0x800 {
        2
    } else if (c as u32) < 0x10000 {
        3
    } else {
        4
    }
}

/// Length in bytes of the UTF-8 encoding of `s` (what `str::len` returns).
pub open spec fn byte_len(s: Seq<char>) -> nat
    decreases s.len(),
{
    if s.len() == 0 {
        0
    } else {
        byte_len(s.drop_last()) + char_width(s.last())
    }
}

/// A byte offset of `s` that falls between two characters (or at either end).
pub open spec fn is_boundary(s: Seq<char>, b: int) -> bool {
    exists|k: int| 0 <= k <= s.len() && #[trigger] byte_len(s.take(k)) == b
}

pub proof fn lemma_byte_len_step(s: Seq<char>, i: int)
    requires
        0 <= i < s.len(),
    ensures
        byte_len(s.take(i + 1)) == byte_len(s.take(i)) + char_width(s[i]),
{
    assert(s.take(i + 1).drop_last() =~= s.take(i));
}

pub proof fn lemma_byte_len_concat(a: Seq<char>, b: Seq<char>)
    ensures
        byte_len(a + b) == byte_len(a) + byte_len(b),
    decreases b.len(),
{
    if b.len() == 0 {
        assert(a + b =~= a);
    } else {
        assert((a + b).drop_last() =~= a + b.drop_last());
        lemma_byte_len_concat(a, b.drop_last());
    }
}

pub proof fn lemma_byte_len_ge_len(s: Seq<char>)
    ensures
        byte_len(s) >= s.len(),
    decreases s.len(),
{
    if s.len() > 0 {
        lemma_byte_len_ge_len(s.drop_last());
    }
}

pub proof fn lemma_byte_len_prefix(s: Seq<char>, i: int, j: int)
    requires
        0 <= i <= j <= s.len(),
    ensures
        byte_len(s.take(i)) <= byte_len(s.take(j)),
{
    lemma_byte_len_concat(s.take(i), s.subrange(i, j));
    assert(s.take(i) + s.subrange(i, j) =~= s.take(j));
}

/// Prefix byte lengths strictly grow with the number of characters.
pub proof fn lemma_byte_len_prefix_strict(s: Seq<char>, i: int, j: int)
    requires
        0 <= i < j <= s.len(),
    ensures
        byte_len(s.take(i)) < byte_len(s.take(j)),
{
    lemma_byte_len_prefix(s, i, j - 1);
    lemma_byte_len_step(s, j - 1);
}

pub proof fn lemma_ascii_byte_len(s: Seq<char>)
    requires
        forall|i: int| 0 <= i < s.len() ==> (s[i] as u32) < 0x80,
    ensures
        byte_len(s) == s.len(),
    decreases s.len(),
{
    if s.len() > 0 {
        lemma_ascii_byte_len(s.drop_last());
    }
}

/// The UTF-8 encoding of `s` takes `byte_len(s)` bytes.
pub proof fn lemma_encode_utf8_len(s: Seq<char>)
    ensures
        vstd::utf8::encode_utf8(s).len() == byte_len(s),
    decreases s.len(),
{
    if s.len() > 0 {
        lemma_encode_utf8_len(s.drop_first());
        let c = s[0];
        vstd::utf8::char_is_scalar(c);
        lemma_byte_len_concat(seq![c], s.drop_first());
        assert(seq![c] + s.drop_first() =~= s);
        assert(seq![c].drop_last() =~= Seq::<char>::empty());
        assert(byte_len(Seq::<char>::empty()) == 0);
        assert(byte_len(seq![c]) == byte_len(seq![c].drop_last()) + char_width(c));
        assert(byte_len(seq![c]) == char_width(c));
        assert(vstd::utf8::encode_scalar(#[verifier::truncate] (c as u32)).len() == char_width(c));
    }
}

/// Byte length of `s` (std `str::len`).
pub fn str_len(s: &str) -> (n: usize)
    ensures
        n == byte_len(s@),
{
    proof {
        lemma_encode_utf8_len(s@);
    }
    let b = s.as_bytes();
    b.len()
}

/// Byte offset at which the character at index `k` of `v` starts.
pub fn byte_offset(v: &Vec<char>, k: usize) -> (b: usize)
    requires
        k <= v@.len(),
        byte_len(v@) <= usize::MAX,
    ensures
        b == byte_len(v@.take(k as int)),
{
    let mut b: usize = 0;
    let mut i: usize = 0;
    while i < k
        invariant
            i <= k <= v@.len(),
            byte_len(v@) <= usize::MAX,
            b == byte_len(v@.take(i as int)),
        decreases k - i,
    {
        proof {
            lemma_byte_len_step(v@, i as int);
            lemma_byte_len_prefix(v@, i as int + 1, v@.len() as int);
            assert(v@.take(v@.len() as int) =~= v@);
        }
        b = b + char_width_exec(v[i]);
        i = i + 1;
    }
    b
}

pub fn char_width_exec(c: char) -> (w: usize)
    ensures
        w == char_width(c),
{
    let u = c as u32;
    if u < 0x80 {
        1
    } else if u < 0x800 {
        2
    } else if u < 0x10000 {
        3
    } else {
        4
    }
}

/// The number of characters before byte offset `b`, when `b` is a boundary.
pub fn char_index_of_byte(v: &Vec<char>, b: usize) -> (r: Option<usize>)
    requires
        byte_len(v@) <= usize::MAX,
    ensures
        match r {
            Some(k) => k <= v@.len() && byte_len(v@.take(k as int)) == b,
            None => !is_boundary(v@, b as int),
        },
{
    let mut acc: usize = 0;
    let mut i: usize = 0;
    while i < v.len()
        invariant
            i <= v@.len(),
            byte_len(v@) <= usize::MAX,
            acc == byte_len(v@.take(i as int)),
            acc <= b,
            forall|k: int| 0 <= k < i ==> byte_len(v@.take(k)) < b,
        decreases v@.len() - i,
    {
        if acc == b {
            return Some(i);
        }
        proof {
            lemma_byte_len_step(v@, i as int);
            lemma_byte_len_prefix(v@, i as int + 1, v@.len() as int);
            assert(v@.take(v@.len() as int) =~= v@);
        }
        let next = acc + char_width_exec(v[i]);
        if next > b {
            proof {
                assert forall|k: int| 0 <= k <= v@.len() implies byte_len(
                    #[trigger] v@.take(k),
                ) != b by {
                    if k > i {
                        lemma_byte_len_prefix(v@, i as int + 1, k);
                    }
                }
            }
            return None;
        }
        acc = next;
        i = i + 1;
    }
    if acc == b {
        Some(i)
    } else {
        proof {
            assert(v@.take(v@.len() as int) =~= v@);
        }
        None
    }
}

// ───────────────────────── Building strings ─────────────────────────

/// The character view of an optional string.
pub open spec fn opt_view(o: Option<String>) -> Option<Seq<char>> {
    match o {
        Some(s) => Some(s@),
        None => None,
    }
}

/// `s` with leading characters in `junk` removed.
pub open spec fn strip_start_by(s: Seq<char>, junk: spec_fn(char) -> bool) -> Seq<char>
    decreases s.len(),
{
    if s.len() > 0 && junk(s[0]) {
        strip_start_by(s.drop_first(), junk)
    } else {
        s
    }
}

/// `s` with trailing characters in `junk` removed.
pub open spec fn strip_end_by(s: Seq<char>, junk: spec_fn(char) -> bool) -> Seq<char>
    decreases s.len(),
{
    if s.len() > 0 && junk(s.last()) {
        strip_end_by(s.drop_last(), junk)
    } else {
        s
    }
}

/// `s` with leading and trailing characters in `junk` removed (std `str::trim_matches`).
pub open spec fn strip_by(s: Seq<char>, junk: spec_fn(char) -> bool) -> Seq<char> {
    strip_end_by(strip_start_by(s, junk), junk)
}

/// `v` with leading and trailing characters for which `junk` holds removed.
pub fn strip_chars_by<F: Fn(char) -> bool>(
    v: &[char],
    junk: F,
    Ghost(pred): Ghost<spec_fn(char) -> bool>,
) -> (r: Vec<char>)
    requires
        forall|c: char| #[trigger] junk.requires((c,)),
        forall|c: char, b: bool| junk.ensures((c,), b) ==> b == pred(c),
    ensures
        r@ == strip_by(v@, pred),
{
    let mut i: usize = 0;
    proof {
        assert(v@.skip(0) =~= v@);
    }
    while i < v.len() && junk(v[i])
        invariant
            i <= v@.len(),
            forall|c: char| #[trigger] junk.requires((c,)),
            forall|c: char, b: bool| junk.ensures((c,), b) ==> b == pred(c),
            strip_start_by(v@, pred) == strip_start_by(v@.skip(i as int), pred),
        decreases v@.len() - i,
    {
        assert(v@.skip(i as int).drop_first() =~= v@.skip(i as int + 1));
        i = i + 1;
    }
    let mut k: usize = v.len();
    proof {
        assert(v@.skip(i as int) =~= v@.subrange(i as int, v@.len() as int));
    }
    while k > i && junk(v[k - 1])
        invariant
            i <= k <= v@.len(),
            forall|c: char| #[trigger] junk.requires((c,)),
            forall|c: char, b: bool| junk.ensures((c,), b) ==> b == pred(c),
            strip_start_by(v@, pred) == strip_start_by(v@.skip(i as int), pred),
            i < v@.len() ==> !pred(v@[i as int]),
            strip_end_by(v@.skip(i as int), pred) == strip_end_by(
                v@.subrange(i as int, k as int),
                pred,
            ),
        decreases k,
    {
        assert(v@.subrange(i as int, k as int).drop_last() =~= v@.subrange(i as int, k - 1));
        k = k - 1;
    }
    proof {
        assert(strip_start_by(v@.skip(i as int), pred) == v@.skip(i as int));
    }
    slice_chars(v, i, k)
}

/// Append one character (std `String::push`).
#[verifier::external_body]
pub fn push_char(s: &mut String, c: char)
    ensures
        final(s)@ == old(s)@.push(c),
{
    s.push(c);
}

/// The characters of `s`, in order.
pub fn chars_of(s: &str) -> (r: Vec<char>)
    ensures
        r@ == s@,
{
    let mut r: Vec<char> = Vec::new();
    for c in it: s.chars()
        invariant
            r@ == it.seq().take(it.index() as int),
            it.seq() == s@,
    {
        r.push(c);
    }
    r
}

/// A `String` holding the characters of `v`.
pub fn string_of(v: &[char]) -> (r: String)
    ensures
        r@ == v@,
{
    let mut r = String::new();
    let mut i: usize = 0;
    while i < v.len()
        invariant
            i <= v@.len(),
            r@ == v@.take(i as int),
        decreases v@.len() - i,
    {
        push_char(&mut r, v[i]);
        i = i + 1;
        proof {
            assert(r@ =~= v@.take(i as int));
        }
    }
    proof {
        assert(v@.take(v@.len() as int) =~= v@);
    }
    r
}

/// Append all of `w` to `v`.
pub fn extend_chars(v: &mut Vec<char>, w: &[char])
    ensures
        final(v)@ == old(v)@ + w@,
{
    let mut i: usize = 0;
    while i < w.len()
        invariant
            i <= w@.len(),
            v@ == old(v)@ + w@.take(i as int),
        decreases w@.len() - i,
    {
        v.push(w[i]);
        i = i + 1;
        proof {
            assert(v@ =~= old(v)@ + w@.take(i as int));
        }
    }
    proof {
        assert(w@.take(w@.len() as int) =~= w@);
    }
}

/// Append the characters of `s` to `v`.
pub fn extend_str(v: &mut Vec<char>, s: &str)
    ensures
        final(v)@ == old(v)@ + s@,
{
    let w = chars_of(s);
    extend_chars(v, w.as_slice());
}

/// The characters at indices `from..to`.
pub fn slice_chars(v: &[char], from: usize, to: usize) -> (r: Vec<char>)
    requires
        from <= to <= v@.len(),
    ensures
        r@ == v@.subrange(from as int, to as int),
{
    let mut r: Vec<char> = Vec::new();
    let mut i: usize = from;
    while i < to
        invariant
            from <= i <= to <= v@.len(),
            r@ == v@.subrange(from as int, i as int),
        decreases to - i,
    {
        r.push(v[i]);
        i = i + 1;
        proof {
            assert(r@ =~= v@.subrange(from as int, i as int));
        }
    }
    r
}

/// Whether two character sequences are equal.
pub fn chars_eq(a: &[char], b: &[char]) -> (r: bool)
    ensures
        r == (a@ == b@),
{
    if a.len() != b.len() {
        return false;
    }
    let mut i: usize = 0;
    while i < a.len()
        invariant
            i <= a@.len() == b@.len(),
            forall|j: int| 0 <= j < i ==> a@[j] == b@[j],
        decreases a@.len() - i,
    {
        if a[i] != b[i] {
            return false;
        }
        i = i + 1;
    }
    proof {
        assert(a@ =~= b@);
    }
    true
}

/// Whether two strings are equal.
pub fn str_eq(a: &str, b: &str) -> (r: bool)
    ensures
        r == (a@ == b@),
{
    let va = chars_of(a);
    let vb = chars_of(b);
    chars_eq(va.as_slice(), vb.as_slice())
}

// ───────────────────────── Whitespace and trimming ─────────────────────────

/// Unicode `White_Space` (what `char::is_whitespace` tests).
pub open spec fn is_ws(c: char) -> bool {
    let u = c as u32;
    ||| 0x09 <= u <= 0x0D
    ||| u == 0x20
    ||| u == 0x85
    ||| u == 0xA0
    ||| u == 0x1680
    ||| 0x2000 <= u <= 0x200A
    ||| u == 0x2028
    ||| u == 0x2029
    ||| u == 0x202F
    ||| u == 0x205F
    ||| u == 0x3000
}

pub fn is_ws_exec(c: char) -> (r: bool)
    ensures
        r == is_ws(c),
{
    let u = c as u32;
    (0x09 <= u && u <= 0x0D) || u == 0x20 || u == 0x85 || u == 0xA0 || u == 0x1680 || (0x2000
        <= u && u <= 0x200A) || u == 0x2028 || u == 0x2029 || u == 0x202F || u == 0x205F || u
        == 0x3000
}

/// `s` without its leading whitespace.
pub open spec fn trim_start(s: Seq<char>) -> Seq<char>
    decreases s.len(),
{
    if s.len() > 0 && is_ws(s[0]) {
        trim_start(s.drop_first())
    } else {
        s
    }
}

/// `s` without its trailing whitespace.
pub open spec fn trim_end(s: Seq<char>) -> Seq<char>
    decreases s.len(),
{
    if s.len() > 0 && is_ws(s.last()) {
        trim_end(s.drop_last())
    } else {
        s
    }
}

/// `s` without leading and trailing whitespace (std `str::trim`).
pub open spec fn trim(s: Seq<char>) -> Seq<char> {
    trim_end(trim_start(s))
}

/// Every character of `s` is whitespace.
pub open spec fn is_blank(s: Seq<char>) -> bool {
    forall|i: int| 0 <= i < s.len() ==> is_ws(#[trigger] s[i])
}

/// Index of the first non-whitespace character (or the length).
pub fn trim_start_index(v: &[char]) -> (k: usize)
    ensures
        k <= v@.len(),
        trim_start(v@) == v@.skip(k as int),
        forall|j: int| 0 <= j < k ==> is_ws(#[trigger] v@[j]),
        k < v@.len() ==> !is_ws(v@[k as int]),
{
    let mut i: usize = 0;
    proof {
        assert(v@.skip(0) =~= v@);
    }
    while i < v.len() && is_ws_exec(v[i])
        invariant
            i <= v@.len(),
            trim_start(v@) == trim_start(v@.skip(i as int)),
            forall|j: int| 0 <= j < i ==> is_ws(#[trigger] v@[j]),
        decreases v@.len() - i,
    {
        assert(v@.skip(i as int).drop_first() =~= v@.skip(i as int + 1));
        i = i + 1;
    }
    i
}

/// Index just past the last non-whitespace character at or after `lo`.
#[verifier::spinoff_prover]
pub fn trim_end_index(v: &[char], lo: usize) -> (k: usize)
    requires
        lo <= v@.len(),
    ensures
        lo <= k <= v@.len(),
        trim_end(v@.skip(lo as int)) == v@.subrange(lo as int, k as int),
        trim_end(v@) == v@.take(k as int) || k == lo,
        forall|j: int| k <= j < v@.len() ==> is_ws(#[trigger] v@[j]),
        k > lo ==> !is_ws(v@[k - 1]),
{
    let mut k: usize = v.len();
    proof {
        assert(v@.skip(lo as int) =~= v@.subrange(lo as int, v@.len() as int));
        assert(v@.take(v@.len() as int) =~= v@);
    }
    while k > lo && is_ws_exec(v[k - 1])
        invariant
            lo <= k <= v@.len(),
            trim_end(v@.skip(lo as int)) == trim_end(v@.subrange(lo as int, k as int)),
            trim_end(v@) == trim_end(v@.take(k as int)),
            forall|j: int| k <= j < v@.len() ==> is_ws(#[trigger] v@[j]),
        decreases k,
    {
        assert(v@.subrange(lo as int, k as int).drop_last() =~= v@.subrange(
            lo as int,
            k - 1,
        ));
        assert(v@.take(k as int).drop_last() =~= v@.take(k - 1));
        k = k - 1;
    }
    proof {
        assert(v@.skip(lo as int) =~= v@.subrange(lo as int, v@.len() as int));
        assert(v@.take(v@.len() as int) =~= v@);
    }
    k
}

/// `v` without leading and trailing whitespace.
pub fn trim_chars(v: &[char]) -> (r: Vec<char>)
    ensures
        r@ == trim(v@),
{
    let a = trim_start_index(v);
    let b = trim_end_index(v, a);
    slice_chars(v, a, b)
}

/// `v` without trailing whitespace.
pub fn trim_end_chars(v: &[char]) -> (r: Vec<char>)
    ensures
        r@ == trim_end(v@),
{
    let b = trim_end_index(v, 0);
    proof {
        assert(v@.skip(0) =~= v@);
    }
    slice_chars(v, 0, b)
}

/// Whether every character is whitespace (`s.trim().is_empty()`).
pub fn is_blank_chars(v: &[char]) -> (r: bool)
    ensures
        r == is_blank(v@),
{
    let k = trim_start_index(v);
    k == v.len()
}

} // verus!

verus! {

/// `min(byte_len(v), cap)`, without overflow.
pub fn byte_len_capped(v: &[char], cap: usize) -> (r: usize)
    ensures
        r as nat == if byte_len(v@) < cap { byte_len(v@) } else { cap as nat },
{
    if cap == 0 {
        return 0;
    }
    let mut acc: usize = 0;
    let mut i: usize = 0;
    while i < v.len()
        invariant
            i <= v@.len(),
            acc == byte_len(v@.take(i as int)),
            acc < cap,
        decreases v@.len() - i,
    {
        proof {
            lemma_byte_len_step(v@, i as int);
        }
        let w = char_width_exec(v[i]);
        if w >= cap - acc {
            proof {
                lemma_byte_len_prefix(v@, i as int + 1, v@.len() as int);
                assert(v@.take(v@.len() as int) =~= v@);
            }
            return cap;
        }
        acc = acc + w;
        i = i + 1;
    }
    proof {
        assert(v@.take(v@.len() as int) =~= v@);
    }
    acc
}

/// Index of the first `c` in `s`.
pub open spec fn first_index_of(s: Seq<char>, c: char) -> int {
    choose|i: int| 0 <= i < s.len() && s[i] == c && forall|j: int| 0 <= j < i ==> s[j] != c
}

/// Index of the first `c` in `v`.
pub fn find_char(v: &[char], c: char) -> (r: Option<usize>)
    ensures
        match r {
            Some(i) => i < v@.len() && v@[i as int] == c && forall|j: int| 0 <= j < i ==> v@[j]
                != c,
            None => forall|j: int| 0 <= j < v@.len() ==> v@[j] != c,
        },
{
    let mut i: usize = 0;
    while i < v.len()
        invariant
            i <= v@.len(),
            forall|j: int| 0 <= j < i ==> v@[j] != c,
        decreases v@.len() - i,
    {
        if v[i] == c {
            return Some(i);
        }
        i = i + 1;
    }
    None
}

} // verus!

verus! {

/// Index just past the last `c` in `s`, minus one: the index of the last `c`,
/// or -1 when there is none.
pub open spec fn last_index_of_char(s: Seq<char>, c: char) -> int
    decreases s.len(),
{
    if s.len() == 0 {
        -1
    } else if s.last() == c {
        s.len() - 1
    } else {
        last_index_of_char(s.drop_last(), c)
    }
}

pub proof fn lemma_last_index_of_char_bounds(s: Seq<char>, c: char)
    ensures
        -1 <= last_index_of_char(s, c) < s.len(),
    decreases s.len(),
{
    if s.len() > 0 && s.last() != c {
        lemma_last_index_of_char_bounds(s.drop_last(), c);
    }
}

pub proof fn lemma_last_index_of_char_none(s: Seq<char>, c: char)
    requires
        last_index_of_char(s, c) == -1,
    ensures
        forall|j: int| 0 <= j < s.len() ==> s[j] != c,
    decreases s.len(),
{
    if s.len() > 0 {
        lemma_last_index_of_char_none(s.drop_last(), c);
        assert forall|j: int| 0 <= j < s.len() implies s[j] != c by {
            if j < s.len() - 1 {
                assert(s.drop_last()[j] == s[j]);
            }
        }
    }
}

pub proof fn lemma_last_index_of_char_found(s: Seq<char>, c: char)
    requires
        last_index_of_char(s, c) >= 0,
    ensures
        s[last_index_of_char(s, c)] == c,
    decreases s.len(),
{
    if s.len() > 0 && s.last() != c {
        lemma_last_index_of_char_found(s.drop_last(), c);
        lemma_last_index_of_char_bounds(s.drop_last(), c);
        let k = last_index_of_char(s.drop_last(), c);
        assert(s.drop_last()[k] == s[k]);
    }
}

pub proof fn lemma_last_index_of_char_after(s: Seq<char>, c: char)
    ensures
        forall|j: int| last_index_of_char(s, c) < j < s.len() ==> s[j] != c,
    decreases s.len(),
{
    if s.len() > 0 && s.last() != c {
        lemma_last_index_of_char_after(s.drop_last(), c);
        lemma_last_index_of_char_bounds(s.drop_last(), c);
        assert forall|j: int| last_index_of_char(s, c) < j < s.len() implies s[j] != c by {
            if j < s.len() - 1 {
                assert(s.drop_last()[j] == s[j]);
            }
        }
    }
}

/// The index of the last `c` in `v`, or `None`.
pub fn rfind_char_index(v: &[char], c: char) -> (r: Option<usize>)
    ensures
        match r {
            Some(i) => last_index_of_char(v@, c) == i,
            None => last_index_of_char(v@, c) == -1,
        },
{
    let mut k: usize = v.len();
    proof {
        assert(v@.take(v@.len() as int) =~= v@);
    }
    while k > 0
        invariant
            k <= v@.len(),
            last_index_of_char(v@, c) == last_index_of_char(v@.take(k as int), c),
        decreases k,
    {
        if v[k - 1] == c {
            return Some(k - 1);
        }
        proof {
            assert(v@.take(k as int).drop_last() =~= v@.take(k - 1));
        }
        k = k - 1;
    }
    None
}

/// The first `b` bytes of `s`, when `b` falls between two characters
/// (what `str::get(..b)` gives); empty otherwise.
pub open spec fn byte_prefix(s: Seq<char>, b: int) -> Seq<char> {
    if is_boundary(s, b) {
        s.take(choose|k: int| 0 <= k <= s.len() && #[trigger] byte_len(s.take(k)) == b)
    } else {
        seq![]
    }
}

/// `str::get(..b)` on `s`, or "" where that is `None`.
pub fn byte_prefix_of(s: &str, b: usize) -> (r: String)
    ensures
        r@ == byte_prefix(s@, b as int),
{
    let _n = str_len(s);
    let v = chars_of(s);
    match char_index_of_byte(&v, b) {
        Some(k) => {
            proof {
                let c = choose|c: int| 0 <= c <= s@.len() && #[trigger] byte_len(s@.take(c)) == b;
                assert(is_boundary(s@, b as int));
                if c < k {
                    lemma_byte_len_prefix_strict(s@, c, k as int);
                } else if c > k {
                    lemma_byte_len_prefix_strict(s@, k as int, c);
                }
            }
            let p = slice_chars(v.as_slice(), 0, k);
            proof {
                assert(p@ =~= s@.take(k as int));
            }
            string_of(p.as_slice())
        },
        None => String::new(),
    }
}

} // verus!
