use vstd::prelude::*;

verus! {

/// The Unicode `White_Space` property, which `char::is_whitespace` tests.
pub open spec fn spec_is_whitespace(c: char) -> bool {
    let n = c as u32;
    (0x9 <= n && n <= 0xd) || n == 0x20 || n == 0x85 || n == 0xa0 || n == 0x1680 || (0x2000 <= n
        && n <= 0x200a) || n == 0x2028 || n == 0x2029 || n == 0x202f || n == 0x205f || n == 0x3000
}

/// Whether a character is whitespace, as `char::is_whitespace` decides.
pub fn is_whitespace(c: char) -> (r: bool)
    ensures
        r == spec_is_whitespace(c),
{
    let n = c as u32;
    (0x9 <= n && n <= 0xd) || n == 0x20 || n == 0x85 || n == 0xa0 || n == 0x1680 || (0x2000 <= n
        && n <= 0x200a) || n == 0x2028 || n == 0x2029 || n == 0x202f || n == 0x205f || n == 0x3000
}

/// The characters of a string slice, in order.
pub fn char_vec(s: &str) -> (v: Vec<char>)
    ensures
        v@ == s@,
{
    let mut v: Vec<char> = Vec::new();
    for c in it: s.chars()
        invariant
            v@ == it.seq().take(it.index() as int),
    {
        v.push(c);
    }
    v
}

} // verus!

verus! {

/// `s` without its leading whitespace.
pub open spec fn trim_start(s: Seq<char>) -> Seq<char>
    decreases s.len(),
{
    if s.len() > 0 && spec_is_whitespace(s[0]) {
        trim_start(s.drop_first())
    } else {
        s
    }
}

/// `s` without its trailing whitespace.
pub open spec fn trim_end(s: Seq<char>) -> Seq<char>
    decreases s.len(),
{
    if s.len() > 0 && spec_is_whitespace(s.last()) {
        trim_end(s.drop_last())
    } else {
        s
    }
}

/// `s` without leading and trailing whitespace, as `str::trim` returns it.
pub open spec fn spec_trim(s: Seq<char>) -> Seq<char> {
    trim_end(trim_start(s))
}

/// A string is blank when nothing but whitespace is in it.
pub open spec fn spec_is_blank(s: Seq<char>) -> bool {
    spec_trim(s).len() == 0
}

/// Number of maximal runs of non-whitespace characters, as `split_whitespace().count()`.
pub open spec fn spec_word_count(s: Seq<char>) -> nat
    decreases s.len(),
{
    if s.len() == 0 {
        0
    } else {
        spec_word_count(s.drop_last()) + if !spec_is_whitespace(s.last()) && (s.len() == 1
            || spec_is_whitespace(s[s.len() - 2])) {
            1nat
        } else {
            0nat
        }
    }
}

/// `needle` occurs in `hay` as a contiguous run.
pub open spec fn spec_contains(hay: Seq<char>, needle: Seq<char>) -> bool {
    exists|i: int|
        0 <= i && i + needle.len() <= hay.len() && #[trigger] hay.subrange(i, i + needle.len())
            == needle
}

/// What `str::to_lowercase` returns for a string: the Unicode lowercase mapping.
pub uninterp spec fn spec_lowercase(s: Seq<char>) -> Seq<char>;

/// Calls `str::to_lowercase`; the result is named `spec_lowercase` of the input.
#[verifier::external_body]
pub(crate) fn to_lowercase(s: &str) -> (r: String)
    ensures
        r@ == spec_lowercase(s@),
{
    s.to_lowercase()
}

/// Calls `String::push`, which appends one character.
#[verifier::external_body]
pub(crate) fn push_char(s: &mut String, c: char)
    ensures
        final(s)@ == old(s)@.push(c),
{
    s.push(c)
}

/// Appends a string slice.
pub fn push_str(s: &mut String, t: &str)
    ensures
        final(s)@ == old(s)@ + t@,
{
    s.append(t);
}

/// Whether two texts hold the same characters.
pub fn str_equals(a: &str, b: &str) -> (r: bool)
    ensures
        r == (a@ == b@),
{
    chars_eq(&char_vec(a), &char_vec(b))
}

/// A string holding the given characters.
pub fn string_from_chars(v: &[char]) -> (s: String)
    ensures
        s@ == v@,
{
    let mut s = String::new();
    let mut i: usize = 0;
    while i < v.len()
        invariant
            i <= v.len(),
            s@ == v@.take(i as int),
        decreases v.len() - i,
    {
        push_char(&mut s, v[i]);
        proof {
            assert(v@.take(i + 1) =~= v@.take(i as int).push(v@[i as int]));
        }
        i = i + 1;
    }
    proof {
        assert(v@.take(v.len() as int) =~= v@);
    }
    s
}

proof fn lemma_trim_start_skip(s: Seq<char>, i: int)
    requires
        0 <= i < s.len(),
        spec_is_whitespace(s[i]),
    ensures
        trim_start(s.skip(i)) == trim_start(s.skip(i + 1)),
{
    assert(s.skip(i).drop_first() =~= s.skip(i + 1));
}

proof fn lemma_trim_end_take(s: Seq<char>, j: int)
    requires
        0 < j <= s.len(),
        spec_is_whitespace(s[j - 1]),
    ensures
        trim_end(s.take(j)) == trim_end(s.take(j - 1)),
{
    assert(s.take(j).drop_last() =~= s.take(j - 1));
}

/// The characters of `s` without leading and trailing whitespace.
pub fn trim_chars(s: &[char]) -> (r: Vec<char>)
    ensures
        r@ == spec_trim(s@),
{
    let n = s.len();
    let mut i: usize = 0;
    assert(s@.skip(0) =~= s@);
    while i < n && is_whitespace(s[i])
        invariant
            i <= n,
            n == s@.len(),
            trim_start(s@) == trim_start(s@.skip(i as int)),
        decreases n - i,
    {
        proof {
            lemma_trim_start_skip(s@, i as int);
        }
        i = i + 1;
    }
    let ghost t = s@.skip(i as int);
    assert(trim_start(t) == t);
    let mut j: usize = n;
    assert(t.take(n - i) =~= t);
    while j > i && is_whitespace(s[j - 1])
        invariant
            i <= j <= n,
            n == s@.len(),
            t == s@.skip(i as int),
            trim_end(t) == trim_end(t.take(j - i)),
        decreases j,
    {
        proof {
            lemma_trim_end_take(t, j - i);
        }
        j = j - 1;
    }
    assert(trim_end(t.take(j - i)) == t.take(j - i));
    let mut r: Vec<char> = Vec::new();
    let mut k: usize = i;
    while k < j
        invariant
            i <= k <= j <= n,
            n == s@.len(),
            r@ == s@.subrange(i as int, k as int),
        decreases j - k,
    {
        r.push(s[k]);
        proof {
            assert(s@.subrange(i as int, k + 1) =~= s@.subrange(i as int, k as int).push(s@[k as int]));
        }
        k = k + 1;
    }
    assert(r@ =~= t.take(j - i));
    r
}

/// `s` without leading and trailing whitespace, as an owned string.
pub fn trim(s: &str) -> (r: String)
    ensures
        r@ == spec_trim(s@),
{
    let chars = char_vec(s);
    let t = trim_chars(chars.as_slice());
    string_from_chars(t.as_slice())
}

} // verus!

verus! {

/// Whether nothing but whitespace is in `s`.
pub fn is_blank(s: &str) -> (r: bool)
    ensures
        r == spec_is_blank(s@),
{
    let t = trim(s);
    t.as_str().is_empty()
}

/// The characters of `s` without trailing whitespace.
pub fn trim_end_chars(s: &[char]) -> (r: Vec<char>)
    ensures
        r@ == trim_end(s@),
{
    let n = s.len();
    let mut j: usize = n;
    assert(s@.take(n as int) =~= s@);
    while j > 0 && is_whitespace(s[j - 1])
        invariant
            j <= n,
            n == s@.len(),
            trim_end(s@) == trim_end(s@.take(j as int)),
        decreases j,
    {
        proof {
            lemma_trim_end_take(s@, j as int);
        }
        j = j - 1;
    }
    assert(trim_end(s@.take(j as int)) == s@.take(j as int));
    let mut r: Vec<char> = Vec::new();
    let mut k: usize = 0;
    while k < j
        invariant
            k <= j <= n,
            n == s@.len(),
            r@ == s@.take(k as int),
        decreases j - k,
    {
        r.push(s[k]);
        proof {
            assert(s@.take(k + 1) =~= s@.take(k as int).push(s@[k as int]));
        }
        k = k + 1;
    }
    r
}

/// Number of whitespace-separated words in `s`.
pub fn word_count(s: &[char]) -> (n: usize)
    ensures
        n == spec_word_count(s@),
{
    let mut count: usize = 0;
    let mut i: usize = 0;
    assert(s@.take(0) =~= Seq::<char>::empty());
    while i < s.len()
        invariant
            i <= s.len(),
            count == spec_word_count(s@.take(i as int)),
            count <= i,
        decreases s.len() - i,
    {
        let starts = !is_whitespace(s[i]) && (i == 0 || is_whitespace(s[i - 1]));
        proof {
            let p = s@.take(i + 1);
            assert(p.drop_last() =~= s@.take(i as int));
            assert(p.last() == s@[i as int]);
            if i > 0 {
                assert(p[p.len() - 2] == s@[i - 1]);
            }
        }
        if starts {
            count = count + 1;
        }
        i = i + 1;
    }
    assert(s@.take(s.len() as int) =~= s@);
    count
}

/// Whether `needle` occurs in `hay` as a contiguous run.
pub fn contains_chars(hay: &[char], needle: &[char]) -> (r: bool)
    ensures
        r == spec_contains(hay@, needle@),
{
    if needle.len() > hay.len() {
        return false;
    }
    let last = hay.len() - needle.len();
    let mut i: usize = 0;
    while i <= last
        invariant
            last == hay.len() - needle.len(),
            i <= last + 1,
            forall|k: int|
                0 <= k < i ==> #[trigger] hay@.subrange(k, k + needle@.len()) != needle@,
        decreases last + 1 - i,
    {
        let mut j: usize = 0;
        while j < needle.len() && hay[i + j] == needle[j]
            invariant
                i <= last,
                last == hay.len() - needle.len(),
                j <= needle.len(),
                forall|m: int| 0 <= m < j ==> hay@[i + m] == needle@[m],
            decreases needle.len() - j,
        {
            j = j + 1;
        }
        if j == needle.len() {
            assert(hay@.subrange(i as int, i + needle@.len()) =~= needle@);
            return true;
        }
        assert(hay@.subrange(i as int, i + needle@.len())[j as int] != needle@[j as int]);
        i = i + 1;
    }
    false
}

} // verus!

verus! {

/// The decimal digit for `d`, for `d` below ten.
pub open spec fn digit_char(d: int) -> char {
    if d == 0 {
        '0'
    } else if d == 1 {
        '1'
    } else if d == 2 {
        '2'
    } else if d == 3 {
        '3'
    } else if d == 4 {
        '4'
    } else if d == 5 {
        '5'
    } else if d == 6 {
        '6'
    } else if d == 7 {
        '7'
    } else if d == 8 {
        '8'
    } else {
        '9'
    }
}

/// Decimal notation of a natural number, without leading zeros.
pub open spec fn decimal(n: nat) -> Seq<char>
    decreases n,
{
    if n < 10 {
        seq![digit_char(n as int)]
    } else {
        decimal(n / 10).push(digit_char((n % 10) as int))
    }
}

/// What `format!("{:02}", n)` writes for an integer: zero-padded to two places, sign first.
pub open spec fn pad2(n: int) -> Seq<char> {
    if n < 0 {
        seq!['-'] + decimal((-n) as nat)
    } else if n < 10 {
        seq!['0'] + decimal(n as nat)
    } else {
        decimal(n as nat)
    }
}

/// Integer division rounding toward zero, as Rust's `/` on signed integers.
pub open spec fn tdiv(a: int, b: int) -> int {
    if a >= 0 {
        a / b
    } else {
        -((-a) / b)
    }
}

/// Remainder with the sign of the dividend, as Rust's `%` on signed integers.
pub open spec fn trem(a: int, b: int) -> int {
    a - b * tdiv(a, b)
}

/// A run of `n` copies of `c`.
pub open spec fn repeat_char(c: char, n: nat) -> Seq<char> {
    Seq::new(n, |i: int| c)
}

fn digit(d: u64) -> (c: char)
    requires
        d < 10,
    ensures
        c == digit_char(d as int),
{
    if d == 0 {
        '0'
    } else if d == 1 {
        '1'
    } else if d == 2 {
        '2'
    } else if d == 3 {
        '3'
    } else if d == 4 {
        '4'
    } else if d == 5 {
        '5'
    } else if d == 6 {
        '6'
    } else if d == 7 {
        '7'
    } else if d == 8 {
        '8'
    } else {
        '9'
    }
}

/// Appends the decimal notation of `n`.
pub fn push_decimal(s: &mut String, n: u64)
    ensures
        final(s)@ == old(s)@ + decimal(n as nat),
    decreases n,
{
    if n >= 10 {
        push_decimal(s, n / 10);
    }
    push_char(s, digit(n % 10));
    proof {
        if n >= 10 {
            assert(decimal(n as nat) == decimal((n / 10) as nat).push(digit_char((n % 10) as int)));
        }
    }
}

/// Decimal notation of an integer, with a minus sign before a negative one.
pub open spec fn signed_decimal(n: int) -> Seq<char> {
    if n < 0 {
        seq!['-'] + decimal((-n) as nat)
    } else {
        decimal(n as nat)
    }
}

/// Appends the decimal notation of `n`, as `format!("{n}")` writes it.
pub fn push_signed_decimal(s: &mut String, n: i64)
    ensures
        final(s)@ == old(s)@ + signed_decimal(n as int),
{
    if n < 0 {
        push_char(s, '-');
        let magnitude: u64 = ((-(n + 1)) as u64) + 1;
        push_decimal(s, magnitude);
    } else {
        push_decimal(s, n as u64);
    }
}

/// Appends `n` as `format!("{:02}", n)` writes it.
pub fn push_pad2(s: &mut String, n: i64)
    requires
        n > i64::MIN,
    ensures
        final(s)@ == old(s)@ + pad2(n as int),
{
    if n < 0 {
        push_char(s, '-');
        push_decimal(s, (-n) as u64);
    } else {
        if n < 10 {
            push_char(s, '0');
        }
        push_decimal(s, n as u64);
    }
}

/// Appends `n` copies of `c`.
pub fn push_repeat(s: &mut String, c: char, n: usize)
    ensures
        final(s)@ == old(s)@ + repeat_char(c, n as nat),
{
    let ghost start = s@;
    let mut i: usize = 0;
    while i < n
        invariant
            i <= n,
            s@ == start + repeat_char(c, i as nat),
        decreases n - i,
    {
        push_char(s, c);
        i = i + 1;
        assert(s@ =~= start + repeat_char(c, i as nat));
    }
}

/// The `MM:SS` label that a millisecond offset gets in notes and transcript exports.
pub open spec fn spec_clock_label(milliseconds: int) -> Seq<char> {
    pad2(tdiv(milliseconds, 60_000)) + seq![':'] + pad2(trem(tdiv(milliseconds, 1000), 60))
}

/// Formats a millisecond offset as `MM:SS`, minutes first.
pub fn clock_label(milliseconds: i64) -> (r: String)
    ensures
        r@ == spec_clock_label(milliseconds as int),
{
    let mut s = String::new();
    push_pad2(&mut s, milliseconds / 60_000);
    push_char(&mut s, ':');
    push_pad2(&mut s, (milliseconds / 1000) % 60);
    s
}

} // verus!

verus! {

/// Two optional strings hold the same text, or are both absent.
pub fn opt_str_eq(a: &Option<String>, b: &Option<String>) -> (r: bool)
    ensures
        r == (a.deep_view() == b.deep_view()),
{
    match (a, b) {
        (Some(x), Some(y)) => str_equals(x.as_str(), y.as_str()),
        (None, None) => true,
        _ => false,
    }
}

/// A copy of an optional string.
pub fn clone_opt_string(a: &Option<String>) -> (r: Option<String>)
    ensures
        r.deep_view() == a.deep_view(),
{
    match a {
        Some(x) => Some(x.clone()),
        None => None,
    }
}

} // verus!

verus! {

/// Some character of `s` is not whitespace.
pub open spec fn has_non_whitespace(s: Seq<char>) -> bool {
    exists|i: int| 0 <= i < s.len() && !spec_is_whitespace(#[trigger] s[i])
}

/// Stripping leading whitespace drops a prefix of whitespace and keeps the rest.
pub proof fn lemma_trim_start_shape(s: Seq<char>)
    ensures
        exists|k: int| 0 <= k <= s.len() && trim_start(s) == s.skip(k) && forall|j: int| 0 <= j < k ==> spec_is_whitespace(#[trigger] s[j]),
        trim_start(s).len() > 0 ==> !spec_is_whitespace(trim_start(s)[0]),
    decreases s.len(),
{
    if s.len() > 0 && spec_is_whitespace(s[0]) {
        lemma_trim_start_shape(s.drop_first());
        let k = choose|k: int| 0 <= k <= s.drop_first().len() && trim_start(s.drop_first()) == s.drop_first().skip(k) && forall|j: int| 0 <= j < k ==> spec_is_whitespace(#[trigger] s.drop_first()[j]);
        assert(s.drop_first().skip(k) =~= s.skip(k + 1));
        assert forall|j: int| 0 <= j < k + 1 implies spec_is_whitespace(#[trigger] s[j]) by {
            if j > 0 {
                assert(s[j] == s.drop_first()[j - 1]);
            }
        }
    } else {
        assert(s.skip(0) =~= s);
    }
}

/// Stripping trailing whitespace drops a suffix of whitespace and keeps the rest.
pub proof fn lemma_trim_end_shape(s: Seq<char>)
    ensures
        exists|k: int| 0 <= k <= s.len() && trim_end(s) == s.take(k) && forall|j: int| k <= j < s.len() ==> spec_is_whitespace(#[trigger] s[j]),
        trim_end(s).len() > 0 ==> !spec_is_whitespace(trim_end(s).last()),
    decreases s.len(),
{
    if s.len() > 0 && spec_is_whitespace(s.last()) {
        lemma_trim_end_shape(s.drop_last());
        let k = choose|k: int| 0 <= k <= s.drop_last().len() && trim_end(s.drop_last()) == s.drop_last().take(k) && forall|j: int| k <= j < s.drop_last().len() ==> spec_is_whitespace(#[trigger] s.drop_last()[j]);
        assert(s.drop_last().take(k) =~= s.take(k));
        assert forall|j: int| k <= j < s.len() implies spec_is_whitespace(#[trigger] s[j]) by {
            if j < s.len() - 1 {
                assert(s[j] == s.drop_last()[j]);
            }
        }
    } else {
        assert(s.take(s.len() as int) =~= s);
    }
}

/// The trimmed text is empty exactly when every character is whitespace.
pub proof fn lemma_trim_nonempty(s: Seq<char>)
    ensures
        (spec_trim(s).len() > 0) == has_non_whitespace(s),
        spec_trim(s).len() > 0 ==> !spec_is_whitespace(spec_trim(s)[0]) && !spec_is_whitespace(spec_trim(s).last()),
{
    lemma_trim_start_shape(s);
    let u = trim_start(s);
    let k = choose|k: int| 0 <= k <= s.len() && trim_start(s) == s.skip(k) && forall|j: int| 0 <= j < k ==> spec_is_whitespace(#[trigger] s[j]);
    lemma_trim_end_shape(u);
    let m = choose|m: int| 0 <= m <= u.len() && trim_end(u) == u.take(m) && forall|j: int| m <= j < u.len() ==> spec_is_whitespace(#[trigger] u[j]);
    if has_non_whitespace(s) {
        let i = choose|i: int| 0 <= i < s.len() && !spec_is_whitespace(#[trigger] s[i]);
        assert(i >= k);
        assert(u[i - k] == s[i]);
        assert(i - k < m);
        assert(spec_trim(s)[0] == u[0]);
    } else {
        if spec_trim(s).len() > 0 {
            assert(spec_trim(s)[0] == s[k]);
        }
    }
}

/// Trimming twice is trimming once.
pub proof fn lemma_trim_idempotent(s: Seq<char>)
    ensures
        spec_trim(spec_trim(s)) == spec_trim(s),
{
    lemma_trim_nonempty(s);
    let t = spec_trim(s);
    if t.len() > 0 {
        assert(trim_start(t) == t);
        assert(trim_end(t) == t);
    } else {
        assert(trim_start(t) == t);
        assert(trim_end(t) == t);
    }
}

/// A trimmed text that is not empty is not blank.
pub proof fn lemma_trimmed_not_blank(s: Seq<char>)
    requires
        !spec_is_blank(s),
    ensures
        !spec_is_blank(spec_trim(s)),
{
    lemma_trim_idempotent(s);
}

} // verus!

verus! {

/// Code-point order on texts, which is the order of their UTF-8 bytes.
pub open spec fn text_lt(a: Seq<char>, b: Seq<char>) -> bool
    decreases a.len(),
{
    if a.len() == 0 {
        b.len() > 0
    } else if b.len() == 0 {
        false
    } else if a[0] != b[0] {
        a[0] < b[0]
    } else {
        text_lt(a.drop_first(), b.drop_first())
    }
}

/// Whether two character lists are equal.
pub fn chars_eq(a: &Vec<char>, b: &Vec<char>) -> (r: bool)
    ensures
        r == (a@ == b@),
{
    if a.len() != b.len() {
        return false;
    }
    let mut i: usize = 0;
    while i < a.len()
        invariant
            a.len() == b.len(),
            i <= a.len(),
            forall|k: int| 0 <= k < i ==> a@[k] == b@[k],
        decreases a.len() - i,
    {
        if a[i] != b[i] {
            return false;
        }
        i = i + 1;
    }
    assert(a@ =~= b@);
    true
}

/// Whether `a` comes before `b` in code-point order.
pub fn chars_lt(a: &Vec<char>, b: &Vec<char>) -> (r: bool)
    ensures
        r == text_lt(a@, b@),
{
    let mut i: usize = 0;
    assert(a@.skip(0) =~= a@);
    assert(b@.skip(0) =~= b@);
    while i < a.len() && i < b.len() && a[i] == b[i]
        invariant
            i <= a.len(),
            i <= b.len(),
            text_lt(a@, b@) == text_lt(a@.skip(i as int), b@.skip(i as int)),
        decreases a.len() - i,
    {
        proof {
            assert(a@.skip(i as int).drop_first() =~= a@.skip(i + 1));
            assert(b@.skip(i as int).drop_first() =~= b@.skip(i + 1));
        }
        i = i + 1;
    }
    proof {
        if i < a.len() && i < b.len() {
            assert(a@.skip(i as int)[0] == a@[i as int]);
            assert(b@.skip(i as int)[0] == b@[i as int]);
        }
    }
    if i == a.len() {
        i < b.len()
    } else if i == b.len() {
        false
    } else {
        a[i] < b[i]
    }
}

/// No text comes before itself.
pub proof fn lemma_text_lt_irreflexive(a: Seq<char>)
    ensures
        !text_lt(a, a),
    decreases a.len(),
{
    if a.len() > 0 {
        lemma_text_lt_irreflexive(a.drop_first());
    }
}

/// Of two different texts, one comes before the other.
pub proof fn lemma_text_lt_total(a: Seq<char>, b: Seq<char>)
    ensures
        a == b || text_lt(a, b) || text_lt(b, a),
    decreases a.len(),
{
    if a.len() > 0 && b.len() > 0 && a[0] == b[0] {
        lemma_text_lt_total(a.drop_first(), b.drop_first());
        if a.drop_first() == b.drop_first() {
            assert(a.drop_first().len() == b.drop_first().len());
            assert(b.len() == a.len());
            assert forall|i: int| 0 <= i < a.len() implies a[i] == b[i] by {
                if i > 0 {
                    assert(a[i] == a.drop_first()[i - 1]);
                    assert(b[i] == b.drop_first()[i - 1]);
                }
            }
            assert(a =~= b);
        }
    }
    if a.len() == 0 && b.len() == 0 {
        assert(a =~= b);
    }
}

/// Code-point order is transitive.
pub proof fn lemma_text_lt_transitive(a: Seq<char>, b: Seq<char>, c: Seq<char>)
    requires
        text_lt(a, b),
        text_lt(b, c),
    ensures
        text_lt(a, c),
    decreases a.len(),
{
    if a.len() > 0 && b.len() > 0 && c.len() > 0 && a[0] == b[0] && b[0] == c[0] {
        lemma_text_lt_transitive(a.drop_first(), b.drop_first(), c.drop_first());
    }
}

} // verus!

verus! {

/// `s` begins with `p`.
pub open spec fn spec_starts_with(s: Seq<char>, p: Seq<char>) -> bool {
    p.len() <= s.len() && s.take(p.len() as int) == p
}

/// `s` ends with `p`.
pub open spec fn spec_ends_with(s: Seq<char>, p: Seq<char>) -> bool {
    p.len() <= s.len() && s.skip(s.len() - p.len()) == p
}

/// Whether `s` begins with `p`.
pub fn starts_with_chars(s: &[char], p: &[char]) -> (r: bool)
    ensures
        r == spec_starts_with(s@, p@),
{
    if p.len() > s.len() {
        return false;
    }
    let mut i: usize = 0;
    while i < p.len()
        invariant
            p.len() <= s.len(),
            i <= p.len(),
            forall|k: int| 0 <= k < i ==> s@[k] == p@[k],
        decreases p.len() - i,
    {
        if s[i] != p[i] {
            assert(s@.take(p.len() as int)[i as int] != p@[i as int]);
            return false;
        }
        i = i + 1;
    }
    assert(s@.take(p.len() as int) =~= p@);
    true
}

/// Whether `s` ends with `p`.
pub fn ends_with_chars(s: &[char], p: &[char]) -> (r: bool)
    ensures
        r == spec_ends_with(s@, p@),
{
    if p.len() > s.len() {
        return false;
    }
    let off = s.len() - p.len();
    let mut i: usize = 0;
    while i < p.len()
        invariant
            p.len() <= s.len(),
            off == s.len() - p.len(),
            i <= p.len(),
            forall|k: int| 0 <= k < i ==> s@[off + k] == p@[k],
        decreases p.len() - i,
    {
        if s[off + i] != p[i] {
            assert(s@.skip(off as int)[i as int] != p@[i as int]);
            return false;
        }
        i = i + 1;
    }
    assert(s@.skip(off as int) =~= p@);
    true
}

/// The characters of `s` from `from` up to `to`.
pub fn sub_chars(s: &[char], from: usize, to: usize) -> (r: Vec<char>)
    requires
        from <= to <= s.len(),
    ensures
        r@ == s@.subrange(from as int, to as int),
{
    let mut r: Vec<char> = Vec::new();
    let mut k: usize = from;
    while k < to
        invariant
            from <= k <= to <= s.len(),
            r@ == s@.subrange(from as int, k as int),
        decreases to - k,
    {
        r.push(s[k]);
        assert(s@.subrange(from as int, k + 1) =~= s@.subrange(from as int, k as int).push(s@[k as int]));
        k = k + 1;
    }
    r
}

/// Value of a run of decimal digits.
pub open spec fn digits_value(s: Seq<char>) -> nat
    decreases s.len(),
{
    if s.len() == 0 {
        0
    } else {
        digits_value(s.drop_last()) * 10 + ((s.last() as int) - ('0' as int)) as nat
    }
}

/// Every character is an ASCII digit.
pub open spec fn all_digits(s: Seq<char>) -> bool {
    forall|i: int| 0 <= i < s.len() ==> '0' <= #[trigger] s[i] <= '9'
}

/// What `str::parse::<u64>` accepts: an optional `+`, then one or more decimal digits,
/// for a value that fits in `u64`.
pub open spec fn spec_parse_u64(s: Seq<char>) -> Option<u64> {
    let d = if s.len() > 0 && s[0] == '+' { s.drop_first() } else { s };
    if d.len() > 0 && all_digits(d) && digits_value(d) <= u64::MAX {
        Some(digits_value(d) as u64)
    } else {
        None
    }
}

/// A longer run of digits is worth at least as much as its prefix.
proof fn lemma_digits_value_prefix(d: Seq<char>, i: int, j: int)
    requires
        0 <= i <= j <= d.len(),
    ensures
        digits_value(d.take(i)) <= digits_value(d.take(j)),
    decreases j - i,
{
    if i < j {
        lemma_digits_value_prefix(d, i, j - 1);
        assert(d.take(j).drop_last() =~= d.take(j - 1));
    }
}

/// Reads an unsigned decimal number as `str::parse::<u64>` does: an optional `+`, then one or more
/// ASCII digits, for a value that fits in `u64`; anything else gives `None`.
pub fn parse_u64(s: &str) -> (r: Option<u64>)
    ensures
        r == spec_parse_u64(s@),
{
    let chars = char_vec(s);
    let start: usize = if chars.len() > 0 && chars[0] == '+' { 1 } else { 0 };
    let ghost d = if s@.len() > 0 && s@[0] == '+' { s@.drop_first() } else { s@ };
    assert(d =~= chars@.skip(start as int));
    if start == chars.len() {
        return None;
    }
    let mut value: u64 = 0;
    let mut i: usize = start;
    while i < chars.len()
        invariant
            start <= i <= chars.len(),
            chars@ == s@,
            d == chars@.skip(start as int),
            d == (if s@.len() > 0 && s@[0] == '+' { s@.drop_first() } else { s@ }),
            d.len() > 0,
            all_digits(d.take(i - start)),
            value as nat == digits_value(d.take(i - start)),
        decreases chars.len() - i,
    {
        let c = chars[i];
        assert(d[i - start] == c);
        if c < '0' || c > '9' {
            assert(!all_digits(d));
            assert(spec_parse_u64(s@) is None);
            return None;
        }
        let digit = (c as u32 - '0' as u32) as u64;
        assert(d.take(i - start + 1).drop_last() =~= d.take(i - start));
        assert(d.take(i - start + 1).last() == c);
        let ghost next = digits_value(d.take(i - start + 1));
        assert(next == value * 10 + digit);
        let scaled = value.checked_mul(10);
        let stepped = match scaled {
            Some(v) => v.checked_add(digit),
            None => None,
        };
        match stepped {
            Some(v) => {
                value = v;
            },
            None => {
                proof {
                    if all_digits(d) {
                        lemma_digits_value_prefix(d, i - start + 1, d.len() as int);
                        assert(d.take(d.len() as int) =~= d);
                    }
                    assert(spec_parse_u64(s@) is None);
                }
                return None;
            },
        }
        assert forall|k: int| 0 <= k < d.take(i - start + 1).len() implies '0' <= #[trigger] d.take(i - start + 1)[k] <= '9' by {
            if k < i - start {
                assert(d.take(i - start + 1)[k] == d.take(i - start)[k]);
            }
        }
        i = i + 1;
    }
    assert(d.take(i - start) =~= d);
    Some(value)
}

} // verus!

verus! {

/// Code-point order, or equal.
pub open spec fn text_le(a: Seq<char>, b: Seq<char>) -> bool {
    a == b || text_lt(a, b)
}

/// Two texts do not come before each other.
pub proof fn lemma_text_lt_asymmetric(a: Seq<char>, b: Seq<char>)
    ensures
        !(text_lt(a, b) && text_lt(b, a)),
    decreases a.len(),
{
    if a.len() > 0 && b.len() > 0 && a[0] == b[0] {
        lemma_text_lt_asymmetric(a.drop_first(), b.drop_first());
    }
}

/// Code-point order on texts is a total order.
pub proof fn lemma_text_le_total_ordering()
    ensures
        vstd::relations::total_ordering(|a: Seq<char>, b: Seq<char>| text_le(a, b)),
{
    let le = |a: Seq<char>, b: Seq<char>| text_le(a, b);
    assert forall|a: Seq<char>, b: Seq<char>| #[trigger] le(a, b) && #[trigger] le(b, a) implies a == b by {
        lemma_text_lt_asymmetric(a, b);
    }
    assert forall|a: Seq<char>, b: Seq<char>, c: Seq<char>| #[trigger] le(a, b) && #[trigger] le(b, c) implies le(a, c) by {
        if text_lt(a, b) && text_lt(b, c) {
            lemma_text_lt_transitive(a, b, c);
        }
    }
    assert forall|a: Seq<char>, b: Seq<char>| #[trigger] le(a, b) || #[trigger] le(b, a) by {
        lemma_text_lt_total(a, b);
    }
    assert(vstd::relations::reflexive(le));
    assert(vstd::relations::antisymmetric(le));
    assert(vstd::relations::transitive(le));
    assert(vstd::relations::strongly_connected(le));
}

/// The character sequences of a list of strings.
pub open spec fn texts_view(s: Seq<String>) -> Seq<Seq<char>> {
    s.map_values(|t: String| t@)
}

/// The texts in code-point order, as `sort` orders strings.
pub fn sort_texts(v: Vec<String>) -> (r: Vec<String>)
    ensures
        texts_view(r@) == texts_view(v@).sort_by(|a: Seq<char>, b: Seq<char>| text_le(a, b)),
{
    broadcast use vstd::seq_lib::group_to_multiset_ensures;
    let ghost le = |a: Seq<char>, b: Seq<char>| text_le(a, b);
    let ghost input = texts_view(v@);
    let mut out: Vec<String> = Vec::new();
    let mut keys: Vec<Vec<char>> = Vec::new();
    let mut i: usize = 0;
    while i < v.len()
        invariant
            i <= v.len(),
            input == texts_view(v@),
            out.len() == keys.len(),
            forall|k: int| 0 <= k < keys.len() ==> keys[k]@ == #[trigger] out@[k]@,
            forall|a: int, b: int| 0 <= a < b < out.len() ==> #[trigger] text_le(out@[a]@, out@[b]@),
            texts_view(out@).to_multiset() == input.take(i as int).to_multiset(),
        decreases v.len() - i,
    {
        let x = v[i].clone();
        let xk = char_vec(x.as_str());
        let mut p: usize = 0;
        while p < out.len() && !chars_lt(&xk, &keys[p])
            invariant
                p <= out.len(),
                out.len() == keys.len(),
                forall|k: int| 0 <= k < keys.len() ==> keys[k]@ == #[trigger] out@[k]@,
                xk@ == x@,
                forall|k: int| 0 <= k < p ==> !text_lt(x@, #[trigger] out@[k]@),
            decreases out.len() - p,
        {
            p = p + 1;
        }
        let ghost before = texts_view(out@);
        let ghost xv = x@;
        assert(xv == v@[i as int]@);
        proof {
            if p < out.len() {
                assert(text_lt(xv, before[p as int]));
            }
        }
        out.insert(p, x);
        keys.insert(p, xk);
        proof {
            lemma_text_le_total_ordering();
            assert(input.take(i + 1) =~= input.take(i as int).push(xv));
            assert(texts_view(out@) =~= before.insert(p as int, xv));
            vstd::seq_lib::to_multiset_insert(before, p as int, xv);
            vstd::seq_lib::to_multiset_build(input.take(i as int), xv);
            let o = texts_view(out@);
            assert forall|k: int| 0 <= k < out.len() implies #[trigger] out@[k]@ == o[k] by {}
            assert forall|a: int, b: int| 0 <= a < b < out.len() implies #[trigger] text_le(out@[a]@, out@[b]@) by {
                if a < p && b == p {
                    assert(out@[a]@ == before[a]);
                    assert(!text_lt(xv, before[a]));
                    lemma_text_lt_total(before[a], xv);
                } else if a == p && b > p {
                    assert(o[b] == before[b - 1]);
                    assert(text_le(xv, before[p as int]));
                    if b - 1 > p {
                        assert(text_le(before[p as int], before[b - 1]));
                        if text_lt(before[p as int], before[b - 1]) {
                            lemma_text_lt_transitive(xv, before[p as int], before[b - 1]);
                        }
                    }
                } else if a < p && b > p {
                    assert(o[a] == before[a] && o[b] == before[b - 1]);
                    assert(text_le(before[a], before[b - 1]));
                } else if a > p {
                    assert(o[a] == before[a - 1] && o[b] == before[b - 1]);
                    assert(text_le(before[a - 1], before[b - 1]));
                } else {
                    assert(o[a] == before[a] && o[b] == before[b]);
                    assert(text_le(before[a], before[b]));
                }
            }
        }
        i = i + 1;
    }
    proof {
        lemma_text_le_total_ordering();
        assert(input.take(v.len() as int) =~= input);
        assert forall|a: int, b: int| 0 <= a < b < out.len() implies #[trigger] le(texts_view(out@)[a], texts_view(out@)[b]) by {
            assert(text_le(out@[a]@, out@[b]@));
        }
        input.lemma_sort_by_ensures(le);
        vstd::seq_lib::lemma_sorted_unique(texts_view(out@), input.sort_by(le), le);
    }
    out
}

} // verus!

verus! {

/// The maximal runs of non-whitespace characters of `s`, in order, as `str::split_whitespace`
/// yields them.
pub open spec fn spec_words(s: Seq<char>) -> Seq<Seq<char>>
    decreases s.len(),
{
    if s.len() == 0 {
        Seq::empty()
    } else {
        let before = spec_words(s.drop_last());
        let c = s.last();
        if spec_is_whitespace(c) {
            before
        } else if s.len() >= 2 && !spec_is_whitespace(s[s.len() - 2]) {
            before.drop_last().push(before.last().push(c))
        } else {
            before.push(seq![c])
        }
    }
}

/// A run of text that does not end in whitespace has at least one word.
proof fn lemma_words_nonempty(s: Seq<char>)
    requires
        s.len() > 0,
        !spec_is_whitespace(s.last()),
    ensures
        spec_words(s).len() > 0,
    decreases s.len(),
{
}

/// The words of `s`, as `str::split_whitespace` yields them.
pub fn split_words(s: &[char]) -> (r: Vec<Vec<char>>)
    ensures
        r@.map_values(|w: Vec<char>| w@) == spec_words(s@),
{
    let mut words: Vec<Vec<char>> = Vec::new();
    let mut i: usize = 0;
    while i < s.len()
        invariant
            i <= s.len(),
            words@.map_values(|w: Vec<char>| w@) == spec_words(s@.take(i as int)),
        decreases s.len() - i,
    {
        let c = s[i];
        let ghost p = s@.take(i + 1);
        proof {
            assert(p.drop_last() =~= s@.take(i as int));
            assert(p.last() == c);
            if i > 0 {
                assert(p[p.len() - 2] == s@[i - 1]);
            }
        }
        if !is_whitespace(c) {
            if i > 0 && !is_whitespace(s[i - 1]) {
                proof {
                    lemma_words_nonempty(s@.take(i as int));
                    assert(s@.take(i as int).last() == s@[i - 1]);
                }
                let last = words.len() - 1;
                let mut word = words.remove(last);
                word.push(c);
                words.push(word);
            } else {
                let mut word: Vec<char> = Vec::new();
                word.push(c);
                words.push(word);
            }
        }
        assert(words@.map_values(|w: Vec<char>| w@) =~= spec_words(p));
        i = i + 1;
    }
    assert(s@.take(s.len() as int) =~= s@);
    words
}

} // verus!

verus! {

/// The pieces of `s` between occurrences of `sep`, as `str::split` with a character yields them:
/// one more piece than there are separators, empty pieces included.
pub open spec fn spec_split_char(s: Seq<char>, sep: char) -> Seq<Seq<char>>
    decreases s.len(),
{
    if s.len() == 0 {
        seq![Seq::empty()]
    } else {
        let before = spec_split_char(s.drop_last(), sep);
        if s.last() == sep {
            before.push(Seq::empty())
        } else {
            before.drop_last().push(before.last().push(s.last()))
        }
    }
}

/// Splitting always yields at least one piece.
pub proof fn lemma_split_nonempty(s: Seq<char>, sep: char)
    ensures
        spec_split_char(s, sep).len() >= 1,
    decreases s.len(),
{
    if s.len() > 0 {
        lemma_split_nonempty(s.drop_last(), sep);
    }
}

/// The pieces of `s` between occurrences of `sep`, as `str::split` yields them.
pub fn split_on(s: &[char], sep: char) -> (r: Vec<Vec<char>>)
    ensures
        r@.map_values(|w: Vec<char>| w@) == spec_split_char(s@, sep),
        r.len() >= 1,
{
    let mut pieces: Vec<Vec<char>> = Vec::new();
    pieces.push(Vec::new());
    let mut i: usize = 0;
    assert(pieces@.map_values(|w: Vec<char>| w@) =~= spec_split_char(s@.take(0), sep));
    while i < s.len()
        invariant
            i <= s.len(),
            pieces.len() >= 1,
            pieces@.map_values(|w: Vec<char>| w@) == spec_split_char(s@.take(i as int), sep),
        decreases s.len() - i,
    {
        let c = s[i];
        let ghost p = s@.take(i + 1);
        proof {
            assert(p.drop_last() =~= s@.take(i as int));
            assert(p.last() == c);
        }
        if c == sep {
            pieces.push(Vec::new());
        } else {
            let last = pieces.len() - 1;
            let mut piece = pieces.remove(last);
            piece.push(c);
            pieces.push(piece);
        }
        assert(pieces@.map_values(|w: Vec<char>| w@) =~= spec_split_char(p, sep));
        i = i + 1;
    }
    assert(s@.take(s.len() as int) =~= s@);
    pieces
}

/// A line that was ended by a line feed, without the carriage return before it.
pub open spec fn strip_cr(line: Seq<char>) -> Seq<char> {
    if line.len() > 0 && line.last() == '\r' {
        line.drop_last()
    } else {
        line
    }
}

/// The lines of `s`, as `str::lines` yields them: split at line feeds, a carriage return just
/// before a line feed removed, and no empty line after a final line feed.
pub open spec fn spec_lines(s: Seq<char>) -> Seq<Seq<char>> {
    let pieces = spec_split_char(s, '\n');
    let ended = pieces.drop_last().map_values(|p: Seq<char>| strip_cr(p));
    if pieces.last().len() == 0 {
        ended
    } else {
        ended.push(pieces.last())
    }
}

/// The lines of `s`, as `str::lines` yields them.
pub fn lines_of(s: &[char]) -> (r: Vec<Vec<char>>)
    ensures
        r@.map_values(|w: Vec<char>| w@) == spec_lines(s@),
{
    let pieces = split_on(s, '\n');
    let ghost pv = pieces@.map_values(|w: Vec<char>| w@);
    let mut lines: Vec<Vec<char>> = Vec::new();
    let last = pieces.len() - 1;
    let mut k: usize = 0;
    while k < last
        invariant
            last == pieces.len() - 1,
            k <= last,
            pv == pieces@.map_values(|w: Vec<char>| w@),
            lines@.map_values(|w: Vec<char>| w@) == pv.take(k as int).map_values(|p: Seq<char>| strip_cr(p)),
        decreases last - k,
    {
        let piece = &pieces[k];
        let mut line: Vec<char> = piece.clone();
        if line.len() > 0 && line[line.len() - 1] == '\r' {
            line.pop();
        }
        assert(pv[k as int] == piece@);
        assert(line@ == strip_cr(piece@));
        lines.push(line);
        assert(pv.take(k + 1).map_values(|p: Seq<char>| strip_cr(p))
            =~= pv.take(k as int).map_values(|p: Seq<char>| strip_cr(p)).push(strip_cr(pv[k as int])));
        assert(lines@.map_values(|w: Vec<char>| w@) =~= pv.take(k + 1).map_values(|p: Seq<char>| strip_cr(p)));
        k = k + 1;
    }
    assert(pv.take(last as int) =~= pv.drop_last());
    assert(pv.last() == pieces@[last as int]@);
    if pieces[last].len() > 0 {
        lines.push(pieces[last].clone());
        assert(lines@.map_values(|w: Vec<char>| w@) =~= pv.drop_last().map_values(|p: Seq<char>| strip_cr(p)).push(pv.last()));
    }
    lines
}

} // verus!

verus! {

/// Reading back the decimal notation of a number gives the number.
pub proof fn lemma_decimal_value(n: nat)
    ensures
        digits_value(decimal(n)) == n,
    decreases n,
{
    let d = decimal(n);
    let last = (n % 10) as int;
    assert((digit_char(last) as int) - ('0' as int) == last);
    assert(d.len() > 0);
    assert(digits_value(d) == digits_value(d.drop_last()) * 10 + ((d.last() as int) - ('0' as int)) as nat);
    if n < 10 {
        assert(d.drop_last() =~= Seq::<char>::empty());
        assert(d.last() == digit_char(n as int));
        assert(n % 10 == n);
    } else {
        lemma_decimal_value(n / 10);
        assert(d.drop_last() =~= decimal(n / 10));
        assert(d.last() == digit_char(last));
        assert((n / 10) * 10 + n % 10 == n);
    }
}

/// Distinct numbers have distinct decimal notations.
pub proof fn lemma_decimal_injective(a: nat, b: nat)
    ensures
        decimal(a) == decimal(b) ==> a == b,
{
    lemma_decimal_value(a);
    lemma_decimal_value(b);
}

} // verus!

verus! {

/// Decimal notations start with a digit.
proof fn lemma_decimal_starts_with_digit(n: nat)
    ensures
        decimal(n).len() > 0,
        '0' <= decimal(n)[0] <= '9',
    decreases n,
{
    if n >= 10 {
        lemma_decimal_starts_with_digit(n / 10);
        assert(decimal(n)[0] == decimal(n / 10)[0]);
    }
}

/// Distinct integers have distinct signed decimal notations.
pub proof fn lemma_signed_decimal_injective(a: int, b: int)
    ensures
        signed_decimal(a) == signed_decimal(b) ==> a == b,
{
    if signed_decimal(a) == signed_decimal(b) {
        if a < 0 && b < 0 {
            let da = decimal((-a) as nat);
            let db = decimal((-b) as nat);
            assert(da =~= signed_decimal(a).drop_first());
            assert(db =~= signed_decimal(b).drop_first());
            lemma_decimal_injective((-a) as nat, (-b) as nat);
        } else if a >= 0 && b >= 0 {
            lemma_decimal_injective(a as nat, b as nat);
        } else if a < 0 {
            lemma_decimal_starts_with_digit(b as nat);
            assert(signed_decimal(a)[0] == '-');
        } else {
            lemma_decimal_starts_with_digit(a as nat);
            assert(signed_decimal(b)[0] == '-');
        }
    }
}

} // verus!

verus! {

/// Decimal notations are made of digits only.
proof fn lemma_decimal_all_digits(n: nat)
    ensures
        all_digits(decimal(n)),
    decreases n,
{
    if n >= 10 {
        lemma_decimal_all_digits(n / 10);
        let d = decimal(n);
        assert forall|i: int| 0 <= i < d.len() implies '0' <= #[trigger] d[i] <= '9' by {
            if i < d.len() - 1 {
                assert(d[i] == decimal(n / 10)[i]);
            }
        }
    }
}

/// A leading zero does not change the value of a run of digits.
proof fn lemma_leading_zero_value(x: Seq<char>)
    ensures
        digits_value(seq!['0'] + x) == digits_value(x),
    decreases x.len(),
{
    let y = seq!['0'] + x;
    assert(digits_value(y) == digits_value(y.drop_last()) * 10 + ((y.last() as int) - ('0' as int)) as nat);
    if x.len() == 0 {
        assert(y.drop_last() =~= Seq::<char>::empty());
        assert(digits_value(Seq::<char>::empty()) == 0);
        assert(y.last() == '0');
    } else {
        lemma_leading_zero_value(x.drop_last());
        assert(y.drop_last() =~= seq!['0'] + x.drop_last());
        assert(y.last() == x.last());
        assert(digits_value(x) == digits_value(x.drop_last()) * 10 + ((x.last() as int) - ('0' as int)) as nat);
    }
}

/// The two-place notation of a number that is not negative is made of digits and reads back as
/// that number; below one hundred it has exactly two of them.
proof fn lemma_pad2_value(n: int)
    requires
        n >= 0,
    ensures
        all_digits(pad2(n)),
        digits_value(pad2(n)) == n,
        n < 100 ==> pad2(n).len() == 2,
{
    lemma_decimal_all_digits(n as nat);
    lemma_decimal_value(n as nat);
    if n < 10 {
        lemma_leading_zero_value(decimal(n as nat));
        let p = pad2(n);
        assert forall|i: int| 0 <= i < p.len() implies '0' <= #[trigger] p[i] <= '9' by {
            if i > 0 {
                assert(p[i] == decimal(n as nat)[i - 1]);
            }
        }
    } else if n < 100 {
        assert(decimal((n / 10) as nat).len() == 1);
    }
}

/// A clock label reads back as the offset's whole seconds: the digits before the colon are the
/// minutes, however many, and the two digits after it the seconds within the minute, so
/// `minutes * 60 + seconds` is the number of whole seconds in the offset.
pub proof fn lemma_clock_label_reads_back(milliseconds: int)
    requires
        milliseconds >= 0,
    ensures
        ({
            let label = spec_clock_label(milliseconds);
            exists|colon: int| {
                &&& 0 <= colon < label.len()
                &&& label[colon] == ':'
                &&& #[trigger] all_digits(label.take(colon))
                &&& all_digits(label.skip(colon + 1))
                &&& label.skip(colon + 1).len() == 2
                &&& digits_value(label.skip(colon + 1)) < 60
                &&& digits_value(label.take(colon)) * 60 + digits_value(label.skip(colon + 1)) == milliseconds / 1000
            }
        }),
{
    let minutes = milliseconds / 60_000;
    let whole = milliseconds / 1000;
    let seconds = whole % 60;
    assert(tdiv(milliseconds, 60_000) == minutes);
    assert(trem(tdiv(milliseconds, 1000), 60) == seconds) by (nonlinear_arith)
        requires
            milliseconds >= 0,
            whole == milliseconds / 1000,
            seconds == whole % 60,
    {
    }
    assert(minutes * 60 + seconds == whole) by (nonlinear_arith)
        requires
            milliseconds >= 0,
            minutes == milliseconds / 60_000,
            whole == milliseconds / 1000,
            seconds == whole % 60,
    {
    }
    lemma_pad2_value(minutes);
    lemma_pad2_value(seconds);
    let label = spec_clock_label(milliseconds);
    let m = pad2(minutes);
    let s = pad2(seconds);
    assert(label == m + seq![':'] + s);
    let colon = m.len() as int;
    assert(label.take(colon) =~= m);
    assert(label.skip(colon + 1) =~= s);
    assert(label[colon] == ':');
}

} // verus!
