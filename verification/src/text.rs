//! Character-level building blocks of the line grammar: classes of characters,
//! trimming, splitting, and the conversions between `str` and `[char]`.
//!
//! Every function here is specified over `Seq<char>`; the executable versions
//! work on borrowed sub-slices and never copy the text they cut.

use vstd::prelude::*;
use vstd::slice::slice_subrange;

verus! {

/// `String::push` appends one character at the end of the string.
pub assume_specification[ String::push ](s: &mut String, ch: char)
    ensures
        final(s)@ == old(s)@.push(ch),
;

/// The characters of `s`, in order.
pub fn chars_of(s: &str) -> (out: Vec<char>)
    ensures
        out@ == s@,
{
    let mut out: Vec<char> = Vec::new();
    for c in it: s.chars()
        invariant
            it.seq() == s@,
            out@ == it.seq().take(it.index() as int),
    {
        out.push(c);
    }
    out
}

/// Appends the characters of `cs` to `out`.
pub fn push_chars(out: &mut String, cs: &[char])
    ensures
        final(out)@ == old(out)@ + cs@,
{
    let mut i: usize = 0;
    while i < cs.len()
        invariant
            i <= cs.len(),
            out@ == old(out)@ + cs@.take(i as int),
        decreases cs.len() - i,
    {
        out.push(cs[i]);
        i += 1;
    }
}

/// The string made of the characters of `cs`, in order.
pub fn string_of(cs: &[char]) -> (out: String)
    ensures
        out@ == cs@,
{
    let mut out = String::new();
    push_chars(&mut out, cs);
    out
}

/// The characters of `a`, then `sep`, then the characters of `b`.
pub fn joined(a: &[char], sep: char, b: &[char]) -> (out: Vec<char>)
    ensures
        out@ == a@ + seq![sep] + b@,
{
    let mut out: Vec<char> = Vec::new();
    let mut i: usize = 0;
    while i < a.len()
        invariant
            i <= a.len(),
            out@ == a@.take(i as int),
        decreases a.len() - i,
    {
        out.push(a[i]);
        i += 1;
    }
    out.push(sep);
    let mut j: usize = 0;
    while j < b.len()
        invariant
            j <= b.len(),
            out@ == a@ + seq![sep] + b@.take(j as int),
        decreases b.len() - j,
    {
        out.push(b[j]);
        j += 1;
    }
    out
}

/// Whether `cs` holds exactly the characters of `word`.
pub fn spells(cs: &[char], word: &str) -> (same: bool)
    ensures
        same == (cs@ == word@),
{
    let mut matched: usize = 0;
    let mut same = true;
    for c in it: word.chars()
        invariant
            it.seq() == word@,
            same ==> matched == it.index() && matched <= cs@.len() && cs@.take(matched as int)
                == word@.take(matched as int),
            !same ==> cs@ != word@,
    {
        if same && matched < cs.len() && cs[matched] == c {
            matched += 1;
        } else {
            same = false;
        }
    }
    proof {
        if same && matched == cs@.len() {
            assert(cs@.take(matched as int) =~= cs@);
            assert(word@.take(matched as int) =~= word@);
        }
    }
    same && matched == cs.len()
}

/// Whether `c` has the Unicode property `White_Space`.
pub open spec fn is_whitespace(c: char) -> bool {
    let n = c as u32;
    ||| 0x09 <= n <= 0x0D
    ||| n == 0x20
    ||| n == 0x85
    ||| n == 0xA0
    ||| n == 0x1680
    ||| 0x2000 <= n <= 0x200A
    ||| n == 0x2028
    ||| n == 0x2029
    ||| n == 0x202F
    ||| n == 0x205F
    ||| n == 0x3000
}

/// A set of characters that a scan can run over.
#[derive(Clone, Copy, Debug)]
pub enum CharClass {
    /// The characters with the property `White_Space`.
    Whitespace,
    /// Every character that is not whitespace.
    Visible,
    /// The two square brackets.
    Bracket,
    /// Every character but the given one.
    Except(char),
}

impl CharClass {
    /// Whether `c` belongs to the class.
    pub open spec fn has(self, c: char) -> bool {
        match self {
            CharClass::Whitespace => is_whitespace(c),
            CharClass::Visible => !is_whitespace(c),
            CharClass::Bracket => c == '[' || c == ']',
            CharClass::Except(x) => c != x,
        }
    }

    /// Tests whether `c` belongs to the class.
    pub fn contains(&self, c: char) -> (r: bool)
        ensures
            r == self.has(c),
    {
        match *self {
            CharClass::Whitespace => whitespace(c),
            CharClass::Visible => !whitespace(c),
            CharClass::Bracket => c == '[' || c == ']',
            CharClass::Except(x) => c != x,
        }
    }
}

/// Tests whether `c` is whitespace.
pub fn whitespace(c: char) -> (r: bool)
    ensures
        r == is_whitespace(c),
{
    let n: u32 = c as u32;
    (0x09 <= n && n <= 0x0D) || n == 0x20 || n == 0x85 || n == 0xA0 || n == 0x1680 || (0x2000 <= n
        && n <= 0x200A) || n == 0x2028 || n == 0x2029 || n == 0x202F || n == 0x205F || n == 0x3000
}

/// How many characters at the start of `s` belong to `class`, up to the first
/// one that does not.
pub open spec fn leading(s: Seq<char>, class: CharClass) -> nat
    decreases s.len(),
{
    if s.len() > 0 && class.has(s[0]) {
        1 + leading(s.drop_first(), class)
    } else {
        0
    }
}

/// How many characters at the end of `s` belong to `class`, back to the last
/// one that does not.
pub open spec fn trailing(s: Seq<char>, class: CharClass) -> nat
    decreases s.len(),
{
    if s.len() > 0 && class.has(s.last()) {
        1 + trailing(s.drop_last(), class)
    } else {
        0
    }
}

/// `leading` counts a run: everything before the count is in the class, and
/// the character at the count, if there is one, is not.
pub proof fn lemma_leading_run(s: Seq<char>, class: CharClass)
    ensures
        leading(s, class) <= s.len(),
        forall|i: int| 0 <= i < leading(s, class) ==> class.has(#[trigger] s[i]),
        leading(s, class) < s.len() ==> !class.has(s[leading(s, class) as int]),
    decreases s.len(),
{
    if s.len() > 0 && class.has(s[0]) {
        let t = s.drop_first();
        lemma_leading_run(t, class);
        assert forall|i: int| 0 <= i < leading(s, class) implies class.has(#[trigger] s[i]) by {
            if i > 0 {
                assert(s[i] == t[i - 1]);
            }
        }
    }
}

/// A run of `n` characters of the class that ends at the end of `s` or at a
/// character outside the class is the one `leading` counts.
pub proof fn lemma_leading_is(s: Seq<char>, class: CharClass, n: nat)
    requires
        n <= s.len(),
        forall|i: int| 0 <= i < n ==> class.has(#[trigger] s[i]),
        n < s.len() ==> !class.has(s[n as int]),
    ensures
        leading(s, class) == n,
    decreases n,
{
    if n > 0 {
        let t = s.drop_first();
        lemma_leading_is(t, class, (n - 1) as nat);
    }
}

/// The same for the end of `s`: a run of `n` characters of the class that
/// starts at the start of `s` or after a character outside the class is the
/// one `trailing` counts.
pub proof fn lemma_trailing_is(s: Seq<char>, class: CharClass, n: nat)
    requires
        n <= s.len(),
        forall|i: int| s.len() - n <= i < s.len() ==> class.has(#[trigger] s[i]),
        n < s.len() ==> !class.has(s[s.len() - n - 1]),
    ensures
        trailing(s, class) == n,
    decreases n,
{
    if n > 0 {
        let t = s.drop_last();
        lemma_trailing_is(t, class, (n - 1) as nat);
    }
}

/// Counts the characters of `class` at the start of `cs`.
pub fn count_leading(cs: &[char], class: CharClass) -> (n: usize)
    ensures
        n == leading(cs@, class),
        n <= cs@.len(),
{
    let mut i: usize = 0;
    while i < cs.len() && class.contains(cs[i])
        invariant
            i <= cs.len(),
            forall|j: int| 0 <= j < i ==> class.has(#[trigger] cs@[j]),
        decreases cs.len() - i,
    {
        i += 1;
    }
    proof {
        lemma_leading_is(cs@, class, i as nat);
    }
    i
}

/// Counts the characters of `class` at the end of `cs`.
pub fn count_trailing(cs: &[char], class: CharClass) -> (n: usize)
    ensures
        n == trailing(cs@, class),
        n <= cs@.len(),
{
    let mut i: usize = cs.len();
    while i > 0 && class.contains(cs[i - 1])
        invariant
            i <= cs.len(),
            forall|j: int| i <= j < cs.len() ==> class.has(#[trigger] cs@[j]),
        decreases i,
    {
        i -= 1;
    }
    proof {
        lemma_trailing_is(cs@, class, (cs.len() - i) as nat);
    }
    cs.len() - i
}

/// `s` without its leading and trailing characters of `class`.
pub open spec fn trim_matching(s: Seq<char>, class: CharClass) -> Seq<char> {
    let rest = s.skip(leading(s, class) as int);
    rest.take(rest.len() - trailing(rest, class))
}

/// `s` without its leading and trailing whitespace.
pub open spec fn trim(s: Seq<char>) -> Seq<char> {
    trim_matching(s, CharClass::Whitespace)
}

/// Text that neither starts nor ends with whitespace is its own trimmed form.
pub proof fn lemma_trim_nothing(s: Seq<char>)
    requires
        s.len() > 0 ==> !is_whitespace(s[0]) && !is_whitespace(s.last()),
    ensures
        trim(s) == s,
{
    lemma_leading_is(s, CharClass::Whitespace, 0);
    lemma_trailing_is(s, CharClass::Whitespace, 0);
}

/// The part of `cs` that is left when the characters of `class` are taken
/// away from both ends.
pub fn trim_chars(cs: &[char], class: CharClass) -> (out: &[char])
    ensures
        out@ == trim_matching(cs@, class),
{
    let a = count_leading(cs, class);
    let rest = slice_subrange(cs, a, cs.len());
    let b = count_trailing(rest, class);
    slice_subrange(rest, 0, rest.len() - b)
}

/// The index of the first `sep` in `s`, or the length of `s` where it holds none.
pub open spec fn position(s: Seq<char>, sep: char) -> nat {
    leading(s, CharClass::Except(sep))
}

/// The pieces of `s` between its occurrences of `sep`: one more piece than
/// there are separators, empty pieces included.
pub open spec fn split(s: Seq<char>, sep: char) -> Seq<Seq<char>>
    decreases s.len(),
{
    let p = position(s, sep);
    if p < s.len() {
        seq![s.take(p as int)] + split(s.skip(p as int + 1), sep)
    } else {
        seq![s]
    }
}

/// As `split`, but with at most `n` pieces: the last one holds the rest of
/// `s`, separators and all.
pub open spec fn splitn(s: Seq<char>, n: nat, sep: char) -> Seq<Seq<char>>
    decreases n,
{
    let p = position(s, sep);
    if n == 0 {
        Seq::empty()
    } else if n == 1 || p >= s.len() {
        seq![s]
    } else {
        seq![s.take(p as int)] + splitn(s.skip(p as int + 1), (n - 1) as nat, sep)
    }
}

/// The maximal runs of characters of `s` that are not whitespace, in order.
pub open spec fn split_whitespace(s: Seq<char>) -> Seq<Seq<char>>
    decreases s.len(),
    via split_whitespace_decreases
{
    let rest = s.skip(leading(s, CharClass::Whitespace) as int);
    let w = leading(rest, CharClass::Visible);
    if w > 0 {
        seq![rest.take(w as int)] + split_whitespace(rest.skip(w as int))
    } else {
        Seq::empty()
    }
}

#[via_fn]
proof fn split_whitespace_decreases(s: Seq<char>) {
    lemma_leading_run(s, CharClass::Whitespace);
    lemma_leading_run(s.skip(leading(s, CharClass::Whitespace) as int), CharClass::Visible);
}

/// `splitn` gives at least one piece and at most `n`.
pub proof fn lemma_splitn_len(s: Seq<char>, n: nat, sep: char)
    requires
        n >= 1,
    ensures
        1 <= splitn(s, n, sep).len() <= n,
    decreases n,
{
    let p = position(s, sep);
    if n > 1 && p < s.len() {
        lemma_splitn_len(s.skip(p as int + 1), (n - 1) as nat, sep);
    }
}

/// What a vector of borrowed pieces holds, piece by piece.
pub open spec fn pieces(v: Seq<&[char]>) -> Seq<Seq<char>> {
    Seq::new(v.len(), |i: int| v[i]@)
}

/// Cuts `cs` at every `sep`.
pub fn split_slice<'a>(cs: &'a [char], sep: char) -> (out: Vec<&'a [char]>)
    ensures
        pieces(out@) == split(cs@, sep),
{
    let mut out: Vec<&[char]> = Vec::new();
    let mut rest = cs;
    let mut p = count_leading(rest, CharClass::Except(sep));
    while p < rest.len()
        invariant
            p == position(rest@, sep),
            split(cs@, sep) == pieces(out@) + split(rest@, sep),
        decreases rest@.len(),
    {
        let piece = slice_subrange(rest, 0, p);
        out.push(piece);
        rest = slice_subrange(rest, p + 1, rest.len());
        p = count_leading(rest, CharClass::Except(sep));
    }
    out.push(rest);
    out
}

/// Cuts `cs` at the first `n - 1` occurrences of `sep`.
pub fn splitn_slice<'a>(cs: &'a [char], n: usize, sep: char) -> (out: Vec<&'a [char]>)
    ensures
        pieces(out@) == splitn(cs@, n as nat, sep),
{
    let mut out: Vec<&[char]> = Vec::new();
    if n == 0 {
        return out;
    }
    let mut rest = cs;
    let mut left: usize = n;
    let mut p = count_leading(rest, CharClass::Except(sep));
    while left > 1 && p < rest.len()
        invariant
            left >= 1,
            p == position(rest@, sep),
            splitn(cs@, n as nat, sep) == pieces(out@) + splitn(rest@, left as nat, sep),
        decreases left,
    {
        let piece = slice_subrange(rest, 0, p);
        out.push(piece);
        rest = slice_subrange(rest, p + 1, rest.len());
        left -= 1;
        p = count_leading(rest, CharClass::Except(sep));
    }
    out.push(rest);
    out
}

/// Cuts `cs` into its words: the runs of characters between whitespace.
pub fn split_whitespace_slice<'a>(cs: &'a [char]) -> (out: Vec<&'a [char]>)
    ensures
        pieces(out@) == split_whitespace(cs@),
{
    let mut out: Vec<&[char]> = Vec::new();
    let mut rest = cs;
    loop
        invariant
            split_whitespace(cs@) == pieces(out@) + split_whitespace(rest@),
        ensures
            pieces(out@) == split_whitespace(cs@),
        decreases rest@.len(),
    {
        let a = count_leading(rest, CharClass::Whitespace);
        let word_on = slice_subrange(rest, a, rest.len());
        let w = count_leading(word_on, CharClass::Visible);
        if w == 0 {
            break ;
        }
        let piece = slice_subrange(word_on, 0, w);
        out.push(piece);
        rest = slice_subrange(word_on, w, word_on.len());
    }
    out
}

/// What `str::to_uppercase` returns for the text `s`: the uppercase mapping of
/// each character under Unicode's rules, which may be longer than `s`.
pub uninterp spec fn uppercase_of(s: Seq<char>) -> Seq<char>;

/// Whether every character of `s` is an ASCII character.
pub open spec fn is_ascii_text(s: Seq<char>) -> bool {
    forall|i: int| 0 <= i < s.len() ==> (#[trigger] s[i]) as u32 <= 0x7F
}

/// The capital of an ASCII small letter; any other character unchanged.
pub open spec fn ascii_upper(c: char) -> char {
    if 0x61 <= c as u32 <= 0x7A {
        ((c as u32 - 0x20) as u8) as char
    } else {
        c
    }
}

/// `s` with each ASCII small letter replaced by its capital.
pub open spec fn ascii_uppercase(s: Seq<char>) -> Seq<char> {
    Seq::new(s.len(), |i: int| ascii_upper(s[i]))
}

/// The uppercase form of `s`. On ASCII text it is the text with its small
/// letters capitalised; on any other text it is whatever Unicode's uppercase
/// mapping gives.
pub open spec fn uppercase(s: Seq<char>) -> Seq<char> {
    if is_ascii_text(s) {
        ascii_uppercase(s)
    } else {
        uppercase_of(s)
    }
}

/// Calls `str::to_uppercase` on the text that `cs` holds. The result is a
/// function of the text alone; nothing more is claimed of it.
#[verifier::external_body]
fn unicode_uppercase(cs: &[char]) -> (out: Vec<char>)
    ensures
        out@ == uppercase_of(cs@),
{
    cs.iter().collect::<String>().to_uppercase().chars().collect()
}

/// The uppercase form of the text in `cs`. ASCII text is capitalised here,
/// letter by letter; text with any other character in it is handed to
/// Unicode's mapping as a whole.
pub fn to_uppercase(cs: &[char]) -> (out: Vec<char>)
    ensures
        out@ == uppercase(cs@),
{
    let mut out: Vec<char> = Vec::new();
    let mut i: usize = 0;
    while i < cs.len()
        invariant
            i <= cs.len(),
            is_ascii_text(cs@.take(i as int)),
            out@ == ascii_uppercase(cs@.take(i as int)),
        decreases cs.len() - i,
    {
        let c = cs[i];
        let n: u32 = c as u32;
        if n > 0x7F {
            return unicode_uppercase(cs);
        }
        let upper = if 0x61 <= n && n <= 0x7A {
            ((n - 0x20) as u8) as char
        } else {
            c
        };
        out.push(upper);
        i += 1;
    }
    proof {
        assert(cs@.take(i as int) =~= cs@);
    }
    out
}

/// Two words with one space between them are split into just these two.
pub proof fn lemma_two_words(a: Seq<char>, b: Seq<char>)
    requires
        a.len() > 0,
        b.len() > 0,
        forall|i: int| 0 <= i < a.len() ==> !is_whitespace(#[trigger] a[i]),
        forall|i: int| 0 <= i < b.len() ==> !is_whitespace(#[trigger] b[i]),
    ensures
        split_whitespace(a + seq![' '] + b) == seq![a, b],
{
    let s = a + seq![' '] + b;
    let after = seq![' '] + b;
    let nothing = Seq::<char>::empty();
    lemma_leading_is(s, CharClass::Whitespace, 0);
    assert(s.skip(0) =~= s);
    lemma_leading_is(s, CharClass::Visible, a.len());
    assert(s.take(a.len() as int) =~= a);
    assert(s.skip(a.len() as int) =~= after);
    lemma_leading_is(after, CharClass::Whitespace, 1);
    assert(after.skip(1) =~= b);
    lemma_leading_is(b, CharClass::Visible, b.len());
    assert(b.take(b.len() as int) =~= b);
    assert(b.skip(b.len() as int) =~= nothing);
    assert(split_whitespace(after) == seq![b] + split_whitespace(nothing));
}

/// Three fields that hold no separator, joined by it, are split into just
/// these three.
pub proof fn lemma_three_fields(x: Seq<char>, y: Seq<char>, z: Seq<char>, sep: char)
    requires
        forall|i: int| 0 <= i < x.len() ==> #[trigger] x[i] != sep,
        forall|i: int| 0 <= i < y.len() ==> #[trigger] y[i] != sep,
        forall|i: int| 0 <= i < z.len() ==> #[trigger] z[i] != sep,
    ensures
        split(x + seq![sep] + y + seq![sep] + z, sep) == seq![x, y, z],
{
    let s = x + seq![sep] + y + seq![sep] + z;
    let after = y + seq![sep] + z;
    lemma_leading_is(s, CharClass::Except(sep), x.len());
    assert(s.take(x.len() as int) =~= x);
    assert(s.skip(x.len() as int + 1) =~= after);
    lemma_leading_is(after, CharClass::Except(sep), y.len());
    assert(after.take(y.len() as int) =~= y);
    assert(after.skip(y.len() as int + 1) =~= z);
    assert(split(after, sep) == seq![y] + split(z, sep));
    lemma_leading_is(z, CharClass::Except(sep), z.len());
}

} // verus!
