//! Small string helpers: the longer and the lexicographically greater of
//! two borrowed strings, a tokenizer that splits a borrowed string at the
//! first occurrence of a delimiter, re-pointing the caller's reference at
//! the rest, and the first word of a string after trimming whitespace.

use vstd::prelude::*;
use vstd::string::StringSliceAdditionalSpecFns;
use vstd::string::StrSliceExecFns;

verus! {

/// The byte length of a string, as `str::len` reports it.
pub open spec fn byte_len(s: &str) -> usize {
    s.spec_bytes().len() as usize
}

/// The longer of the two strings, measured in bytes as `str::len` does;
/// `y` wins ties.
pub fn longest<'a>(x: &'a str, y: &'a str) -> (r: &'a str)
    ensures
        r@ == (if byte_len(x) > byte_len(y) {
            x@
        } else {
            y@
        }),
{
    if x.len() > y.len() {
        x
    } else {
        y
    }
}

/// `c` first occurs in `t` at position `i`.
pub open spec fn first_at(t: Seq<char>, c: char, i: int) -> bool {
    &&& 0 <= i < t.len()
    &&& t[i] == c
    &&& forall|j: int| 0 <= j < i ==> t[j] != c
}

fn first_occurrence(t: &str, c: char) -> (r: Option<usize>)
    ensures
        match r {
            Some(i) => first_at(t@, c, i as int),
            None => forall|j: int| 0 <= j < t@.len() ==> t@[j] != c,
        },
{
    let n = t.unicode_len();
    let mut i: usize = 0;
    while i < n
        invariant
            i <= n,
            n == t@.len(),
            forall|j: int| 0 <= j < i ==> t@[j] != c,
        decreases n - i,
    {
        if t.get_char(i) == c {
            return Some(i);
        }
        i += 1;
    }
    None
}

/// Splits off the token before the first `delimiter`: returns it and
/// re-points `s` at what follows the delimiter.  Without a delimiter the
/// whole string is the token and `s` is left empty.
pub fn strotk<'b, 'a>(s: &'b mut &'a str, delimiter: char) -> (r: &'a str)
    ensures
        forall|i: int|
            first_at(old(s)@, delimiter, i) ==> r@ == old(s)@.subrange(0, i) && final(s)@ == old(
                s,
            )@.subrange(i + 1, old(s)@.len() as int),
        (forall|j: int| 0 <= j < old(s)@.len() ==> old(s)@[j] != delimiter) ==> r@ == old(s)@
            && final(s)@ == Seq::<char>::empty(),
{
    let t: &'a str = *s;
    match first_occurrence(t, delimiter) {
        Some(i) => {
            let n = t.unicode_len();
            let prefix = t.substring_char(0, i);
            let suffix = t.substring_char(i + 1, n);
            *s = suffix;
            proof {
                assert forall|k: int| first_at(t@, delimiter, k) implies k == i as int by {
                    if k < i as int {
                        assert(t@[k] != delimiter);
                    }
                    if k > i as int {
                        assert(t@[i as int] != delimiter);
                    }
                }
            }
            prefix
        },
        None => {
            let prefix: &'a str = *s;
            *s = "";
            proof {
                reveal_strlit("");
                assert((""@) =~= Seq::<char>::empty());
            }
            prefix
        },
    }
}

/// Strict lexicographic order on character sequences, by code point: the
/// order `str`'s own comparison computes, since UTF-8 preserves code-point
/// order.
pub open spec fn lex_lt(a: Seq<char>, b: Seq<char>) -> bool
    decreases a.len(),
{
    if b.len() == 0 {
        false
    } else if a.len() == 0 {
        true
    } else if a[0] != b[0] {
        (a[0] as u32) < (b[0] as u32)
    } else {
        lex_lt(a.drop_first(), b.drop_first())
    }
}

proof fn lemma_lex_skip(a: Seq<char>, b: Seq<char>, i: int)
    requires
        0 <= i <= a.len(),
        i <= b.len(),
        forall|j: int| 0 <= j < i ==> a[j] == b[j],
    ensures
        lex_lt(a, b) == lex_lt(a.skip(i), b.skip(i)),
    decreases i,
{
    if i > 0 {
        assert(a[0] == b[0]);
        assert forall|j: int| 0 <= j < i - 1 implies a.drop_first()[j] == b.drop_first()[j] by {
            assert(a[j + 1] == b[j + 1]);
        }
        lemma_lex_skip(a.drop_first(), b.drop_first(), i - 1);
        assert(a.drop_first().skip(i - 1) =~= a.skip(i));
        assert(b.drop_first().skip(i - 1) =~= b.skip(i));
    } else {
        assert(a.skip(0) =~= a);
        assert(b.skip(0) =~= b);
    }
}

fn str_lt(a: &str, b: &str) -> (r: bool)
    ensures
        r == lex_lt(a@, b@),
{
    let an = a.unicode_len();
    let bn = b.unicode_len();
    let mut i: usize = 0;
    while i < an && i < bn
        invariant
            i <= an,
            i <= bn,
            an == a@.len(),
            bn == b@.len(),
            forall|j: int| 0 <= j < i ==> a@[j] == b@[j],
        decreases an - i,
    {
        let ca = a.get_char(i);
        let cb = b.get_char(i);
        if ca != cb {
            proof {
                lemma_lex_skip(a@, b@, i as int);
                assert(a@.skip(i as int)[0] == ca);
                assert(b@.skip(i as int)[0] == cb);
            }
            return (ca as u32) < (cb as u32);
        }
        i += 1;
    }
    proof {
        lemma_lex_skip(a@, b@, i as int);
        assert(a@.skip(i as int).len() == a@.len() - i);
        assert(b@.skip(i as int).len() == b@.len() - i);
    }
    an < bn
}

/// The lexicographically greater of the two strings, by code point as
/// `str`'s own ordering has it; `s2` wins ties.
pub fn max<'a>(s1: &'a str, s2: &'a str) -> (r: &'a str)
    ensures
        r@ == (if lex_lt(s2@, s1@) {
            s1@
        } else {
            s2@
        }),
{
    if str_lt(s2, s1) {
        s1
    } else {
        s2
    }
}

/// The greater of `s1` and a fixed fallback.
pub fn get_max(s1: &str) -> (r: &str)
    ensures
        r@ == (if lex_lt("Cynthia"@, s1@) {
            s1@
        } else {
            "Cynthia"@
        }),
{
    max(s1, "Cynthia")
}

/// Whitespace, by the set `char::is_whitespace` documents.
pub open spec fn is_space_char(c: char) -> bool {
    let u = c as u32;
    ||| u == 0x20
    ||| (0x09 <= u && u <= 0x0D)
    ||| u == 0x85
    ||| u == 0xA0
    ||| u == 0x1680
    ||| (0x2000 <= u && u <= 0x200A)
    ||| u == 0x2028
    ||| u == 0x2029
    ||| u == 0x202F
    ||| u == 0x205F
    ||| u == 0x3000
}

fn char_is_space(c: char) -> (r: bool)
    ensures
        r == is_space_char(c),
{
    let u = c as u32;
    u == 0x20 || (0x09 <= u && u <= 0x0D) || u == 0x85 || u == 0xA0 || u == 0x1680 || (0x2000 <= u
        && u <= 0x200A) || u == 0x2028 || u == 0x2029 || u == 0x202F || u == 0x205F || u == 0x3000
}

/// `t` without its leading whitespace.
pub open spec fn trim_front(t: Seq<char>) -> Seq<char>
    decreases t.len(),
{
    if t.len() > 0 && is_space_char(t[0]) {
        trim_front(t.drop_first())
    } else {
        t
    }
}

/// `t` without its trailing whitespace.
pub open spec fn trim_back(t: Seq<char>) -> Seq<char>
    decreases t.len(),
{
    if t.len() > 0 && is_space_char(t.last()) {
        trim_back(t.drop_last())
    } else {
        t
    }
}

/// `t` without leading and trailing whitespace: what `str::trim` leaves.
pub open spec fn trimmed(t: Seq<char>) -> Seq<char> {
    trim_front(trim_back(t))
}

proof fn lemma_trim_back_take(t: Seq<char>, end: int)
    requires
        0 <= end <= t.len(),
        forall|j: int| end <= j < t.len() ==> is_space_char(#[trigger] t[j]),
        end > 0 ==> !is_space_char(t[end - 1]),
    ensures
        trim_back(t) == t.subrange(0, end),
    decreases t.len(),
{
    if end == t.len() {
        assert(t.subrange(0, end) =~= t);
    } else {
        assert(is_space_char(t.last()));
        assert forall|j: int| end <= j < t.drop_last().len() implies is_space_char(
            #[trigger] t.drop_last()[j],
        ) by {
            assert(t.drop_last()[j] == t[j]);
        }
        if end > 0 {
            assert(t.drop_last()[end - 1] == t[end - 1]);
        }
        lemma_trim_back_take(t.drop_last(), end);
        assert(t.drop_last().subrange(0, end) =~= t.subrange(0, end));
    }
}

proof fn lemma_trim_front_skip(t: Seq<char>, start: int)
    requires
        0 <= start <= t.len(),
        forall|j: int| 0 <= j < start ==> is_space_char(#[trigger] t[j]),
        start < t.len() ==> !is_space_char(t[start]),
    ensures
        trim_front(t) == t.subrange(start, t.len() as int),
    decreases start,
{
    if start == 0 {
        assert(t.subrange(0, t.len() as int) =~= t);
    } else {
        assert(is_space_char(t[0]));
        assert forall|j: int| 0 <= j < start - 1 implies is_space_char(
            #[trigger] t.drop_first()[j],
        ) by {
            assert(t.drop_first()[j] == t[j + 1]);
        }
        if start < t.len() {
            assert(t.drop_first()[start - 1] == t[start]);
        }
        lemma_trim_front_skip(t.drop_first(), start - 1);
        assert(t.drop_first().subrange(start - 1, t.drop_first().len() as int) =~= t.subrange(
            start,
            t.len() as int,
        ));
    }
}

proof fn lemma_trim_all_space(t: Seq<char>)
    requires
        forall|j: int| 0 <= j < t.len() ==> is_space_char(#[trigger] t[j]),
    ensures
        trimmed(t) == Seq::<char>::empty(),
    decreases t.len(),
{
    if t.len() == 0 {
        assert(trim_back(t) == t);
        assert(t =~= Seq::<char>::empty());
    } else {
        assert(is_space_char(t.last()));
        assert forall|j: int| 0 <= j < t.drop_last().len() implies is_space_char(
            #[trigger] t.drop_last()[j],
        ) by {
            assert(t.drop_last()[j] == t[j]);
        }
        lemma_trim_all_space(t.drop_last());
    }
}

fn trim_chars(s: &str) -> (r: &str)
    ensures
        r@ == trimmed(s@),
{
    let n = s.unicode_len();
    let mut start: usize = 0;
    while start < n && char_is_space(s.get_char(start))
        invariant
            start <= n,
            n == s@.len(),
            forall|j: int| 0 <= j < start ==> is_space_char(#[trigger] s@[j]),
        decreases n - start,
    {
        start += 1;
    }
    let mut end: usize = n;
    while end > start && char_is_space(s.get_char(end - 1))
        invariant
            start <= end <= n,
            n == s@.len(),
            forall|j: int| 0 <= j < start ==> is_space_char(#[trigger] s@[j]),
            start == n || !is_space_char(s@[start as int]),
            forall|j: int| end <= j < n ==> is_space_char(#[trigger] s@[j]),
        decreases end,
    {
        end -= 1;
    }
    let r = s.substring_char(start, end);
    proof {
        if end > start {
            lemma_trim_back_take(s@, end as int);
            lemma_trim_front_skip(s@.subrange(0, end as int), start as int);
            assert(s@.subrange(0, end as int).subrange(start as int, end as int) =~= s@.subrange(
                start as int,
                end as int,
            ));
        } else {
            lemma_trim_all_space(s@);
            assert(r@ =~= Seq::<char>::empty());
        }
    }
    r
}

/// The first word of `s` after trimming whitespace: what stands before the
/// first space of the trimmed string, and the empty string when the
/// trimmed string has no space at all.
pub fn extract_first_word(s: &str) -> (r: &str)
    ensures
        forall|i: int| first_at(trimmed(s@), ' ', i) ==> r@ == trimmed(s@).subrange(0, i),
        (forall|j: int| 0 <= j < trimmed(s@).len() ==> trimmed(s@)[j] != ' ') ==> r@
            == Seq::<char>::empty(),
{
    let t = trim_chars(s);
    match first_occurrence(t, ' ') {
        Some(pos) => {
            let w = t.substring_char(0, pos);
            proof {
                assert forall|k: int| first_at(t@, ' ', k) implies k == pos as int by {
                    if k < pos as int {
                        assert(t@[k] != ' ');
                    }
                    if k > pos as int {
                        assert(t@[pos as int] != ' ');
                    }
                }
            }
            w
        },
        None => {
            proof {
                reveal_strlit("");
                assert((""@) =~= Seq::<char>::empty());
            }
            ""
        },
    }
}

/// `extract_first_word` with its lifetime written out: the result borrows
/// from `s`.
pub fn extract_first_word_with_lc<'a>(s: &'a str) -> (r: &'a str)
    ensures
        forall|i: int| first_at(trimmed(s@), ' ', i) ==> r@ == trimmed(s@).subrange(0, i),
        (forall|j: int| 0 <= j < trimmed(s@).len() ==> trimmed(s@)[j] != ' ') ==> r@
            == Seq::<char>::empty(),
{
    extract_first_word(s)
}

} // verus!
