//! Character classes and small string utilities: trimming, decimal parsing,
//! substring search, and rendering of unsigned numbers.
//!
//! Everything is specified over `Seq<char>` views.  Whitespace is the ASCII
//! set; the decimal parsers accept plain digit runs only.

use vstd::prelude::*;
use vstd::string::*;

verus! {

/// ASCII whitespace recognized when trimming user input.
pub open spec fn is_space_char(c: char) -> bool {
    c == ' ' || c == '\t' || c == '\n' || c == '\r'
}

/// Decimal digit `'0'`..=`'9'`.
pub open spec fn is_digit_char(c: char) -> bool {
    48 <= (c as u32) && (c as u32) <= 57
}

/// Numeric value of a decimal digit character.
pub open spec fn digit_val(c: char) -> nat
    recommends
        is_digit_char(c),
{
    ((c as u32) - 48) as nat
}

/// Every character of `s` is a decimal digit.
pub open spec fn all_digits(s: Seq<char>) -> bool {
    forall|i: int| 0 <= i < s.len() ==> is_digit_char(#[trigger] s[i])
}

/// Value of a digit run read as a base-10 number.
pub open spec fn digits_val(s: Seq<char>) -> nat
    decreases s.len(),
{
    if s.len() == 0 {
        0
    } else {
        digits_val(s.drop_last()) * 10 + digit_val(s.last())
    }
}

/// `s` with its leading ASCII whitespace removed.
pub open spec fn trim_left(s: Seq<char>) -> Seq<char>
    decreases s.len(),
{
    if s.len() > 0 && is_space_char(s[0]) {
        trim_left(s.drop_first())
    } else {
        s
    }
}

/// `s` with its trailing ASCII whitespace removed.
pub open spec fn trim_right(s: Seq<char>) -> Seq<char>
    decreases s.len(),
{
    if s.len() > 0 && is_space_char(s.last()) {
        trim_right(s.drop_last())
    } else {
        s
    }
}

/// `s` with leading and trailing ASCII whitespace removed.
pub open spec fn trim_spec(s: Seq<char>) -> Seq<char> {
    trim_right(trim_left(s))
}

fn is_space(c: char) -> (b: bool)
    ensures
        b == is_space_char(c),
{
    c == ' ' || c == '\t' || c == '\n' || c == '\r'
}

fn is_digit(c: char) -> (b: bool)
    ensures
        b == is_digit_char(c),
{
    let u = c as u32;
    48 <= u && u <= 57
}

proof fn lemma_trim_left_at(s: Seq<char>, i: int)
    requires
        0 <= i <= s.len(),
        forall|k: int| 0 <= k < i ==> is_space_char(#[trigger] s[k]),
        i < s.len() ==> !is_space_char(s[i]),
    ensures
        trim_left(s) == s.subrange(i, s.len() as int),
    decreases i,
{
    if i == 0 {
        assert(s.subrange(0, s.len() as int) =~= s);
    } else {
        assert(is_space_char(s[0]));
        lemma_trim_left_at(s.drop_first(), i - 1);
        assert(s.drop_first().subrange(i - 1, s.drop_first().len() as int) =~= s.subrange(
            i,
            s.len() as int,
        ));
    }
}

proof fn lemma_trim_right_at(s: Seq<char>, j: int)
    requires
        0 <= j <= s.len(),
        forall|k: int| j <= k < s.len() ==> is_space_char(#[trigger] s[k]),
        j > 0 ==> !is_space_char(s[j - 1]),
    ensures
        trim_right(s) == s.subrange(0, j),
    decreases s.len() - j,
{
    if j == s.len() {
        assert(s.subrange(0, j) =~= s);
    } else {
        assert(is_space_char(s.last()));
        lemma_trim_right_at(s.drop_last(), j);
        assert(s.drop_last().subrange(0, j) =~= s.subrange(0, j));
    }
}

/// Remove leading and trailing ASCII whitespace from `s`.
pub fn trim(s: &str) -> (r: &str)
    ensures
        r@ == trim_spec(s@),
{
    let n = s.unicode_len();
    let mut i: usize = 0;
    while i < n && is_space(s.get_char(i))
        invariant
            0 <= i <= n,
            n == s@.len(),
            forall|k: int| 0 <= k < i ==> is_space_char(#[trigger] s@[k]),
        decreases n - i,
    {
        i = i + 1;
    }
    let mut j: usize = n;
    while j > i && is_space(s.get_char(j - 1))
        invariant
            i <= j <= n,
            n == s@.len(),
            forall|k: int| j <= k < n ==> is_space_char(#[trigger] s@[k]),
        decreases j,
    {
        j = j - 1;
    }
    proof {
        lemma_trim_left_at(s@, i as int);
        let t = s@.subrange(i as int, n as int);
        if j == i {
            lemma_trim_right_at(t, 0);
        } else {
            lemma_trim_right_at(t, j - i);
        }
        assert(t.subrange(0, j - i) =~= s@.subrange(i as int, j as int));
    }
    s.substring_char(i, j)
}

proof fn lemma_digits_val_take_step(s: Seq<char>, i: int)
    requires
        0 <= i < s.len(),
    ensures
        digits_val(s.take(i + 1)) == digits_val(s.take(i)) * 10 + digit_val(s[i]),
{
    assert(s.take(i + 1).drop_last() =~= s.take(i));
    assert(s.take(i + 1).last() == s[i]);
}

proof fn lemma_digits_val_take_le(s: Seq<char>, i: int)
    requires
        0 <= i <= s.len(),
    ensures
        digits_val(s.take(i)) <= digits_val(s),
    decreases s.len() - i,
{
    if i == s.len() {
        assert(s.take(i) =~= s);
    } else {
        lemma_digits_val_take_step(s, i);
        lemma_digits_val_take_le(s, i + 1);
    }
}

/// Parse `s` as an unsigned 32-bit decimal number.  Succeeds exactly when `s`
/// is a non-empty run of digits whose value fits in `u32`.
pub fn parse_decimal_u32(s: &str) -> (r: Option<u32>)
    ensures
        match r {
            Some(v) => s@.len() > 0 && all_digits(s@) && digits_val(s@) == v,
            None => !(s@.len() > 0 && all_digits(s@) && digits_val(s@) <= u32::MAX),
        },
{
    let n = s.unicode_len();
    if n == 0 {
        return None;
    }
    let mut acc: u64 = 0;
    let mut i: usize = 0;
    while i < n
        invariant
            0 <= i <= n,
            n == s@.len(),
            acc <= u32::MAX as u64,
            acc == digits_val(s@.take(i as int)),
            forall|k: int| 0 <= k < i ==> is_digit_char(#[trigger] s@[k]),
        decreases n - i,
    {
        let c = s.get_char(i);
        if !is_digit(c) {
            return None;
        }
        let d = (c as u32) - 48;
        acc = acc * 10 + (d as u64);
        proof {
            lemma_digits_val_take_step(s@, i as int);
        }
        if acc > u32::MAX as u64 {
            proof {
                lemma_digits_val_take_le(s@, i + 1);
            }
            return None;
        }
        i = i + 1;
    }
    proof {
        assert(s@.take(n as int) =~= s@);
    }
    Some(acc as u32)
}

/// `s` with every leading `':'` removed.
pub open spec fn strip_colons(s: Seq<char>) -> Seq<char>
    decreases s.len(),
{
    if s.len() > 0 && s[0] == ':' {
        strip_colons(s.drop_first())
    } else {
        s
    }
}

proof fn lemma_strip_colons_at(s: Seq<char>, i: int)
    requires
        0 <= i <= s.len(),
        forall|k: int| 0 <= k < i ==> #[trigger] s[k] == ':',
        i < s.len() ==> s[i] != ':',
    ensures
        strip_colons(s) == s.subrange(i, s.len() as int),
    decreases i,
{
    if i == 0 {
        assert(s.subrange(0, s.len() as int) =~= s);
    } else {
        assert(s[0] == ':');
        lemma_strip_colons_at(s.drop_first(), i - 1);
        assert(s.drop_first().subrange(i - 1, s.drop_first().len() as int) =~= s.subrange(
            i,
            s.len() as int,
        ));
    }
}

/// Remove every leading `':'` from `s`.
pub fn strip_leading_colons(s: &str) -> (r: &str)
    ensures
        r@ == strip_colons(s@),
{
    let n = s.unicode_len();
    let mut i: usize = 0;
    while i < n && s.get_char(i) == ':'
        invariant
            0 <= i <= n,
            n == s@.len(),
            forall|k: int| 0 <= k < i ==> #[trigger] s@[k] == ':',
        decreases n - i,
    {
        i = i + 1;
    }
    proof {
        lemma_strip_colons_at(s@, i as int);
    }
    s.substring_char(i, n)
}

proof fn lemma_trim_right_idem(s: Seq<char>)
    ensures
        trim_right(trim_right(s)) == trim_right(s),
    decreases s.len(),
{
    if s.len() > 0 && is_space_char(s.last()) {
        lemma_trim_right_idem(s.drop_last());
    }
}

proof fn lemma_trim_right_keeps_head(s: Seq<char>)
    ensures
        trim_right(s).len() > 0 ==> trim_right(s)[0] == s[0],
    decreases s.len(),
{
    if s.len() > 0 && is_space_char(s.last()) {
        lemma_trim_right_keeps_head(s.drop_last());
    }
}

proof fn lemma_trim_left_head(s: Seq<char>)
    ensures
        trim_left(s).len() > 0 ==> !is_space_char(trim_left(s)[0]),
    decreases s.len(),
{
    if s.len() > 0 && is_space_char(s[0]) {
        lemma_trim_left_head(s.drop_first());
    }
}

/// Trimming is idempotent: a trimmed string trims to itself.
pub proof fn lemma_trim_idempotent(s: Seq<char>)
    ensures
        trim_spec(trim_spec(s)) == trim_spec(s),
{
    let l = trim_left(s);
    let t = trim_right(l);
    lemma_trim_left_head(s);
    lemma_trim_right_keeps_head(l);
    assert(trim_left(t) == t);
    lemma_trim_right_idem(l);
}

/// The sequence of characters that `str::to_lowercase` maps `s` to.  The
/// mapping depends on the characters alone, so it is left abstract here and
/// named only through the trusted wrapper below.
pub uninterp spec fn lower_of(s: Seq<char>) -> Seq<char>;

/// Relies on str::to_lowercase: the result is a pure function of the input
/// characters (the Unicode lowercase mapping), and an empty string stays
/// empty.
#[verifier::external_body]
pub(crate) fn lowercase(s: &str) -> (r: String)
    ensures
        r@ == lower_of(s@),
        s@.len() == 0 ==> r@.len() == 0,
{
    s.to_lowercase()
}

/// Substring containment: `needle` occurs contiguously in `hay`.
pub open spec fn contains_seq(hay: Seq<char>, needle: Seq<char>) -> bool {
    exists|i: int|
        0 <= i && i + needle.len() <= hay.len() && #[trigger] hay.subrange(i, i + needle.len())
            == needle
}

fn match_at(hay: &str, needle: &str, i: usize) -> (b: bool)
    requires
        i + needle@.len() <= hay@.len(),
        hay@.len() <= usize::MAX,
    ensures
        b == (hay@.subrange(i as int, i + needle@.len()) == needle@),
{
    let m = needle.unicode_len();
    let mut j: usize = 0;
    while j < m
        invariant
            0 <= j <= m,
            m == needle@.len(),
            i + m <= hay@.len(),
            hay@.len() <= usize::MAX,
            forall|k: int| 0 <= k < j ==> hay@[i + k] == needle@[k],
        decreases m - j,
    {
        if hay.get_char(i + j) != needle.get_char(j) {
            assert(hay@.subrange(i as int, i + m) != needle@) by {
                assert(hay@.subrange(i as int, i + m as int)[j as int] == hay@[i + j]);
            }
            return false;
        }
        j = j + 1;
    }
    assert(hay@.subrange(i as int, i + m) =~= needle@);
    true
}

/// First index at which `needle` occurs in `hay`, if any.
pub fn find_str(hay: &str, needle: &str) -> (r: Option<usize>)
    ensures
        match r {
            Some(i) => {
                &&& i + needle@.len() <= hay@.len()
                &&& hay@.subrange(i as int, i + needle@.len()) == needle@
                &&& forall|k: int|
                    0 <= k < i ==> #[trigger] hay@.subrange(k, k + needle@.len()) != needle@
            },
            None => !contains_seq(hay@, needle@),
        },
{
    let n = hay.unicode_len();
    let m = needle.unicode_len();
    if m > n {
        return None;
    }
    let mut i: usize = 0;
    loop
        invariant_except_break
            0 <= i <= n - m,
            m <= n,
            n == hay@.len(),
            m == needle@.len(),
            forall|k: int|
                0 <= k < i ==> #[trigger] hay@.subrange(k, k + needle@.len()) != needle@,
        ensures
            !contains_seq(hay@, needle@),
        decreases n - m - i,
    {
        if match_at(hay, needle, i) {
            return Some(i);
        }
        if i == n - m {
            assert(forall|k: int|
                0 <= k && k + needle@.len() <= hay@.len() ==> #[trigger] hay@.subrange(
                    k,
                    k + needle@.len(),
                ) != needle@);
            break;
        }
        i = i + 1;
    }
    None
}

/// Does `needle` occur contiguously in `hay`?
pub fn contains_str(hay: &str, needle: &str) -> (b: bool)
    ensures
        b == contains_seq(hay@, needle@),
{
    match find_str(hay, needle) {
        Some(_) => true,
        None => false,
    }
}

/// Are the two strings equal character for character?
pub fn str_eq(a: &str, b: &str) -> (r: bool)
    ensures
        r == (a@ == b@),
{
    let n = a.unicode_len();
    if n != b.unicode_len() {
        return false;
    }
    let mut i: usize = 0;
    while i < n
        invariant
            0 <= i <= n,
            n == a@.len(),
            n == b@.len(),
            forall|k: int| 0 <= k < i ==> a@[k] == b@[k],
        decreases n - i,
    {
        if a.get_char(i) != b.get_char(i) {
            return false;
        }
        i = i + 1;
    }
    assert(a@ =~= b@);
    true
}

/// Decimal digit character for a value below ten.
pub open spec fn digit_char(d: nat) -> char
    recommends
        d < 10,
{
    ((d + 48) as u32) as char
}

/// Decimal rendering of `n`, most significant digit first.
pub open spec fn dec_digits(n: nat) -> Seq<char>
    decreases n,
{
    if n < 10 {
        seq![digit_char(n)]
    } else {
        dec_digits(n / 10).push(digit_char(n % 10))
    }
}

fn digit_str(d: u64) -> (r: &'static str)
    requires
        d < 10,
    ensures
        r@ =~= seq![digit_char(d as nat)],
{
    proof {
        reveal_strlit("0");
        reveal_strlit("1");
        reveal_strlit("2");
        reveal_strlit("3");
        reveal_strlit("4");
        reveal_strlit("5");
        reveal_strlit("6");
        reveal_strlit("7");
        reveal_strlit("8");
        reveal_strlit("9");
    }
    if d == 0 {
        "0"
    } else if d == 1 {
        "1"
    } else if d == 2 {
        "2"
    } else if d == 3 {
        "3"
    } else if d == 4 {
        "4"
    } else if d == 5 {
        "5"
    } else if d == 6 {
        "6"
    } else if d == 7 {
        "7"
    } else if d == 8 {
        "8"
    } else {
        "9"
    }
}

/// Render `n` in decimal.
pub fn u64_to_string(n: u64) -> (r: String)
    ensures
        r@ == dec_digits(n as nat),
    decreases n,
{
    if n < 10 {
        String::from_str(digit_str(n))
    } else {
        let prefix = u64_to_string(n / 10);
        prefix.concat(digit_str(n % 10))
    }
}

/// Index of the first ASCII whitespace character, or `s.len()`.
pub open spec fn first_space(s: Seq<char>) -> int
    decreases s.len(),
{
    if s.len() == 0 {
        0
    } else if is_space_char(s[0]) {
        0
    } else {
        1 + first_space(s.drop_first())
    }
}

proof fn lemma_first_space_at(s: Seq<char>, i: int)
    requires
        0 <= i <= s.len(),
        forall|k: int| 0 <= k < i ==> !is_space_char(#[trigger] s[k]),
        i < s.len() ==> is_space_char(s[i]),
    ensures
        first_space(s) == i,
    decreases i,
{
    if s.len() == 0 {
    } else if i == 0 {
    } else {
        lemma_first_space_at(s.drop_first(), i - 1);
    }
}

/// The maximal runs of non-whitespace characters of `s`, in order.
pub open spec fn split_ws(s: Seq<char>) -> Seq<Seq<char>>
    decreases s.len(),
{
    if s.len() == 0 {
        Seq::empty()
    } else if is_space_char(s[0]) {
        split_ws(s.drop_first())
    } else {
        let k = first_space(s);
        // the guard always holds here; it keeps the recursion visibly
        // decreasing
        if 1 <= k <= s.len() {
            seq![s.take(k)] + split_ws(s.skip(k))
        } else {
            seq![s]
        }
    }
}

/// Split `s` on runs of ASCII whitespace.
pub fn split_ws_str(s: &str) -> (r: Vec<String>)
    ensures
        r.deep_view() == split_ws(s@),
{
    let n = s.unicode_len();
    let mut result: Vec<String> = Vec::new();
    let mut pos: usize = 0;
    proof {
        assert(s@.skip(0) =~= s@);
        assert(result.deep_view() =~= Seq::<Seq<char>>::empty());
    }
    while pos < n
        invariant
            0 <= pos <= n,
            n == s@.len(),
            split_ws(s@) =~= result.deep_view() + split_ws(s@.skip(pos as int)),
        decreases n - pos,
    {
        proof {
            assert(s@.skip(pos as int)[0] == s@[pos as int]);
            assert(s@.skip(pos as int).drop_first() =~= s@.skip(pos as int + 1));
        }
        if is_space(s.get_char(pos)) {
            pos = pos + 1;
        } else {
            let ghost suffix = s@.skip(pos as int);
            let mut j: usize = pos + 1;
            while j < n && !is_space(s.get_char(j))
                invariant
                    pos < j <= n,
                    n == s@.len(),
                    !is_space_char(s@[pos as int]),
                    forall|k: int| pos <= k < j ==> !is_space_char(#[trigger] s@[k]),
                decreases n - j,
            {
                j = j + 1;
            }
            proof {
                assert(forall|k: int| 0 <= k < j - pos ==> !is_space_char(#[trigger] suffix[k]));
                if j < n {
                    assert(suffix[j - pos] == s@[j as int]);
                }
                lemma_first_space_at(suffix, j - pos);
                assert(suffix.take(j - pos) =~= s@.subrange(pos as int, j as int));
                assert(suffix.skip(j - pos) =~= s@.skip(j as int));
            }
            let piece = s.substring_char(pos, j);
            let ghost old_deep = result.deep_view();
            result.push(piece.to_owned());
            proof {
                assert(result.deep_view() =~= old_deep + seq![piece@]);
            }
            pos = j;
        }
    }
    proof {
        assert(s@.skip(n as int) =~= Seq::<char>::empty());
        assert(result.deep_view() =~= result.deep_view() + split_ws(s@.skip(n as int)));
    }
    result
}

/// Index of the last `':'` in `s`, or `-1` when there is none.
pub open spec fn last_colon(s: Seq<char>) -> int
    decreases s.len(),
{
    if s.len() == 0 {
        -1
    } else if s.last() == ':' {
        s.len() - 1
    } else {
        last_colon(s.drop_last())
    }
}

/// Find the last `':'` in `s`.
pub fn rfind_colon(s: &str) -> (r: Option<usize>)
    ensures
        match r {
            Some(i) => last_colon(s@) == i && i < s@.len(),
            None => last_colon(s@) == -1,
        },
{
    let n = s.unicode_len();
    let mut j: usize = n;
    proof {
        assert(s@.take(n as int) =~= s@);
    }
    while j > 0
        invariant
            0 <= j <= n,
            n == s@.len(),
            last_colon(s@) == last_colon(s@.take(j as int)),
        decreases j,
    {
        proof {
            assert(s@.take(j as int).last() == s@[j - 1]);
            assert(s@.take(j as int).drop_last() =~= s@.take(j - 1));
        }
        if s.get_char(j - 1) == ':' {
            return Some(j - 1);
        }
        j = j - 1;
    }
    None
}

/// Index of the first character of `s` that is not a decimal digit, or
/// `s.len()`.
pub open spec fn first_non_digit(s: Seq<char>) -> int
    decreases s.len(),
{
    if s.len() == 0 {
        0
    } else if !is_digit_char(s[0]) {
        0
    } else {
        1 + first_non_digit(s.drop_first())
    }
}

proof fn lemma_first_non_digit_at(s: Seq<char>, i: int)
    requires
        0 <= i <= s.len(),
        forall|k: int| 0 <= k < i ==> is_digit_char(#[trigger] s[k]),
        i < s.len() ==> !is_digit_char(s[i]),
    ensures
        first_non_digit(s) == i,
    decreases i,
{
    if s.len() == 0 {
    } else if i == 0 {
    } else {
        lemma_first_non_digit_at(s.drop_first(), i - 1);
    }
}

/// Index of the run of decimal digits `s` starts with: its first non-digit
/// character, found by scanning.
pub fn digit_run_len(s: &str) -> (r: usize)
    ensures
        r == first_non_digit(s@),
        r <= s@.len(),
{
    let n = s.unicode_len();
    let mut i: usize = 0;
    while i < n && is_digit(s.get_char(i))
        invariant
            0 <= i <= n,
            n == s@.len(),
            forall|k: int| 0 <= k < i ==> is_digit_char(#[trigger] s@[k]),
        decreases n - i,
    {
        i = i + 1;
    }
    proof {
        lemma_first_non_digit_at(s@, i as int);
    }
    i
}

/// Index of the first occurrence of `c` in `s`, or `s.len()`.
pub open spec fn first_char(s: Seq<char>, c: char) -> int
    decreases s.len(),
{
    if s.len() == 0 {
        0
    } else if s[0] == c {
        0
    } else {
        1 + first_char(s.drop_first(), c)
    }
}

proof fn lemma_first_char_at(s: Seq<char>, c: char, i: int)
    requires
        0 <= i <= s.len(),
        forall|k: int| 0 <= k < i ==> #[trigger] s[k] != c,
        i < s.len() ==> s[i] == c,
    ensures
        first_char(s, c) == i,
    decreases i,
{
    if s.len() == 0 {
    } else if i == 0 {
    } else {
        lemma_first_char_at(s.drop_first(), c, i - 1);
    }
}

/// Find the first occurrence of `c` in `s` by scanning.
pub fn find_char(s: &str, c: char) -> (r: usize)
    ensures
        r == first_char(s@, c),
        r <= s@.len(),
{
    let n = s.unicode_len();
    let mut i: usize = 0;
    while i < n && s.get_char(i) != c
        invariant
            0 <= i <= n,
            n == s@.len(),
            forall|k: int| 0 <= k < i ==> #[trigger] s@[k] != c,
        decreases n - i,
    {
        i = i + 1;
    }
    proof {
        lemma_first_char_at(s@, c, i as int);
    }
    i
}

/// Index of the first occurrence of `needle` in `hay`, or `hay.len()` when
/// there is none.
pub open spec fn first_match(hay: Seq<char>, needle: Seq<char>) -> int
    decreases hay.len(),
{
    if needle.len() == 0 {
        0
    } else if hay.len() < needle.len() {
        hay.len() as int
    } else if hay.take(needle.len() as int) == needle {
        0
    } else {
        1 + first_match(hay.drop_first(), needle)
    }
}

proof fn lemma_first_match_at(hay: Seq<char>, needle: Seq<char>, i: int)
    requires
        0 <= i,
        i + needle.len() <= hay.len(),
        hay.subrange(i, i + needle.len()) == needle,
        forall|k: int| 0 <= k < i ==> #[trigger] hay.subrange(k, k + needle.len()) != needle,
    ensures
        first_match(hay, needle) == i,
    decreases i,
{
    assert(hay.take(needle.len() as int) =~= hay.subrange(0, 0 + needle.len() as int));
    if needle.len() == 0 && i > 0 {
        assert(hay.subrange(0, 0 + needle.len() as int) =~= needle);
    } else if i == 0 {
    } else {
        let h = hay.drop_first();
        assert forall|k: int| 0 <= k < i - 1 implies #[trigger] h.subrange(k, k + needle.len())
            != needle by {
            assert(h.subrange(k, k + needle.len()) =~= hay.subrange(k + 1, k + 1 + needle.len()));
        }
        assert(h.subrange(i - 1, i - 1 + needle.len()) =~= hay.subrange(i, i + needle.len()));
        lemma_first_match_at(h, needle, i - 1);
    }
}

proof fn lemma_first_match_none(hay: Seq<char>, needle: Seq<char>)
    requires
        !contains_seq(hay, needle),
    ensures
        first_match(hay, needle) == hay.len(),
    decreases hay.len(),
{
    if needle.len() == 0 {
        assert(hay.subrange(0, 0 + needle.len() as int) =~= needle);
        assert(contains_seq(hay, needle));
    } else if hay.len() < needle.len() {
    } else {
        assert(hay.take(needle.len() as int) =~= hay.subrange(0, 0 + needle.len() as int));
        let h = hay.drop_first();
        assert(!contains_seq(h, needle)) by {
            if contains_seq(h, needle) {
                let k = choose|k: int|
                    0 <= k && k + needle.len() <= h.len() && #[trigger] h.subrange(
                        k,
                        k + needle.len(),
                    ) == needle;
                assert(hay.subrange(k + 1, k + 1 + needle.len()) =~= h.subrange(
                    k,
                    k + needle.len(),
                ));
            }
        }
        lemma_first_match_none(h, needle);
    }
}

/// Find the first occurrence of `needle` in `hay` by scanning; the result
/// is `hay`'s length when there is none.
pub fn find_sub(hay: &str, needle: &str) -> (r: usize)
    ensures
        r == first_match(hay@, needle@),
        r <= hay@.len(),
        r < hay@.len() ==> r + needle@.len() <= hay@.len(),
{
    match find_str(hay, needle) {
        Some(i) => {
            proof {
                lemma_first_match_at(hay@, needle@, i as int);
            }
            i
        },
        None => {
            proof {
                lemma_first_match_none(hay@, needle@);
            }
            hay.unicode_len()
        },
    }
}

/// Positions before `first_non_digit` hold digits, and the bound is within
/// the sequence.
pub proof fn lemma_first_non_digit_props(s: Seq<char>)
    ensures
        0 <= first_non_digit(s) <= s.len(),
        forall|k: int| 0 <= k < first_non_digit(s) ==> is_digit_char(#[trigger] s[k]),
    decreases s.len(),
{
    if s.len() > 0 && is_digit_char(s[0]) {
        lemma_first_non_digit_props(s.drop_first());
        assert forall|k: int| 0 <= k < first_non_digit(s) implies is_digit_char(
            #[trigger] s[k],
        ) by {
            if k > 0 {
                assert(s.drop_first()[k - 1] == s[k]);
            }
        }
    }
}

/// `p` without one trailing carriage return, as `str::lines` strips it.
pub open spec fn strip_cr(p: Seq<char>) -> Seq<char> {
    if p.len() > 0 && p.last() == '\r' {
        p.drop_last()
    } else {
        p
    }
}

/// The lines of `s`: split at `'\n'`, a trailing newline producing no empty
/// final line, each line stripped of one trailing `'\r'`.
pub open spec fn split_lines(s: Seq<char>) -> Seq<Seq<char>>
    decreases s.len(),
{
    if s.len() == 0 {
        Seq::empty()
    } else {
        let i = first_char(s, '\n');
        if 0 <= i < s.len() {
            seq![strip_cr(s.take(i))] + split_lines(s.skip(i + 1))
        } else {
            seq![strip_cr(s)]
        }
    }
}

/// Split `s` into lines as `str::lines` does.
pub fn split_lines_str(s: &str) -> (r: Vec<String>)
    ensures
        r.deep_view() == split_lines(s@),
{
    let n = s.unicode_len();
    let mut result: Vec<String> = Vec::new();
    let mut pos: usize = 0;
    proof {
        assert(s@.skip(0) =~= s@);
        assert(result.deep_view() =~= Seq::<Seq<char>>::empty());
    }
    loop
        invariant_except_break
            0 <= pos <= n,
            n == s@.len(),
            split_lines(s@) =~= result.deep_view() + split_lines(s@.skip(pos as int)),
        ensures
            result.deep_view() == split_lines(s@),
        decreases n - pos,
    {
        if pos == n {
            proof {
                assert(s@.skip(pos as int).len() == 0);
            }
            break;
        }
        let ghost suffix = s@.skip(pos as int);
        let mut j: usize = pos;
        while j < n && s.get_char(j) != '\n'
            invariant
                pos <= j <= n,
                n == s@.len(),
                forall|k: int| pos <= k < j ==> #[trigger] s@[k] != '\n',
            decreases n - j,
        {
            j = j + 1;
        }
        proof {
            assert(forall|k: int| 0 <= k < j - pos ==> #[trigger] suffix[k] != '\n');
            if j < n {
                assert(suffix[j - pos] == s@[j as int]);
            }
            lemma_first_char_at(suffix, '\n', j - pos);
        }
        let end = if j > pos && s.get_char(j - 1) == '\r' {
            j - 1
        } else {
            j
        };
        proof {
            let piece = suffix.take(j - pos);
            assert(piece =~= s@.subrange(pos as int, j as int));
            if j > pos && s@[j - 1] == '\r' {
                assert(piece.last() == '\r');
                assert(strip_cr(piece) =~= s@.subrange(pos as int, end as int));
            } else {
                assert(strip_cr(piece) =~= s@.subrange(pos as int, end as int));
            }
            assert(suffix =~= s@.subrange(pos as int, n as int));
        }
        let line = s.substring_char(pos, end);
        let ghost old_deep = result.deep_view();
        result.push(line.to_owned());
        proof {
            assert(result.deep_view() =~= old_deep + seq![line@]);
        }
        if j == n {
            proof {
                assert(suffix.take(j - pos) =~= suffix);
            }
            break;
        }
        proof {
            assert(suffix.skip(j - pos + 1) =~= s@.skip(j as int + 1));
        }
        pos = j + 1;
    }
    result
}

} // verus!
