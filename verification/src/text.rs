//! Character-level text operations: substring search, ANSI escape removal,
//! padding, truncation, replacement and trimming.
use vstd::prelude::*;

verus! {

// ---------------------------------------------------------------------------
// Conversions between `str`/`String` and character vectors
// ---------------------------------------------------------------------------

/// Appends one character to a string.
///
/// Calls `String::push`, which std documents as appending the given `char`
/// to the end of the string; the contract states exactly that.
#[verifier::external_body]
pub(crate) fn push_char(s: &mut String, c: char)
    ensures
        final(s)@ == old(s)@.push(c),
{
    s.push(c);
}

/// The characters of `s`, in order.
pub fn chars_of(s: &str) -> (v: Vec<char>)
    ensures
        v@ == s@,
{
    let mut v: Vec<char> = Vec::new();
    for c in it: s.chars()
        invariant
            v@ == it.seq().take(it.index() as int),
            it.seq() == s@,
    {
        v.push(c);
    }
    v
}

/// A string holding the characters `s[lo..hi]`.
pub fn string_of_range(s: &[char], lo: usize, hi: usize) -> (r: String)
    requires
        lo <= hi <= s@.len(),
    ensures
        r@ == s@.subrange(lo as int, hi as int),
{
    let mut r = String::new();
    let mut i = lo;
    while i < hi
        invariant
            lo <= i <= hi <= s@.len(),
            r@ == s@.subrange(lo as int, i as int),
        decreases hi - i,
    {
        push_char(&mut r, s[i]);
        i += 1;
    }
    r
}

/// A fresh string with the characters of `s`.
pub fn owned(s: &str) -> (r: String)
    ensures
        r@ == s@,
{
    let mut r = String::new();
    r.append(s);
    r
}

/// The number of characters of `s`.
pub fn char_count(s: &str) -> (n: usize)
    ensures
        n == s@.len(),
{
    let v = chars_of(s);
    v.len()
}

/// Whether `a` and `b` hold the same characters.
pub fn str_eq(a: &str, b: &str) -> (r: bool)
    ensures
        r == (a@ == b@),
{
    let va = chars_of(a);
    let vb = chars_of(b);
    if va.len() != vb.len() {
        return false;
    }
    let mut i: usize = 0;
    while i < va.len()
        invariant
            va@ == a@,
            vb@ == b@,
            va@.len() == vb@.len(),
            i <= va@.len(),
            forall|j: int| 0 <= j < i ==> va@[j] == vb@[j],
        decreases va@.len() - i,
    {
        if va[i] != vb[i] {
            return false;
        }
        i += 1;
    }
    assert(va@ =~= vb@);
    true
}

// ---------------------------------------------------------------------------
// Substring search
// ---------------------------------------------------------------------------

/// `pat` occurs in `s` starting at index `i`.
pub open spec fn matches_at(s: Seq<char>, pat: Seq<char>, i: int) -> bool {
    0 <= i && i + pat.len() <= s.len() && s.subrange(i, i + pat.len()) == pat
}

/// The first index `i >= start` at which `pat` occurs in `s`, if any.
pub open spec fn find_from(s: Seq<char>, pat: Seq<char>, start: int) -> Option<int>
    decreases s.len() - start,
{
    if start < 0 || start + pat.len() > s.len() {
        None
    } else if matches_at(s, pat, start) {
        Some(start)
    } else {
        proof {
            if pat.len() == 0 {
                assert(s.subrange(start, start) =~= pat);
            }
        }
        find_from(s, pat, start + 1)
    }
}

/// The first index at which `pat` occurs in `s`, if any.
pub open spec fn find(s: Seq<char>, pat: Seq<char>) -> Option<int> {
    find_from(s, pat, 0)
}

/// `pat` occurs somewhere in `s`.
pub open spec fn contains(s: Seq<char>, pat: Seq<char>) -> bool {
    exists|i: int| matches_at(s, pat, i)
}

/// `find_from` yields the first occurrence at or after `start`.
pub proof fn lemma_find_from(s: Seq<char>, pat: Seq<char>, start: int)
    requires
        0 <= start,
    ensures
        match find_from(s, pat, start) {
            Some(i) => start <= i && matches_at(s, pat, i) && forall|j: int|
                start <= j < i ==> !#[trigger] matches_at(s, pat, j),
            None => forall|j: int| start <= j ==> !#[trigger] matches_at(s, pat, j),
        },
    decreases s.len() - start,
{
    if start + pat.len() > s.len() {
    } else if matches_at(s, pat, start) {
    } else {
        if pat.len() == 0 {
            assert(s.subrange(start, start) =~= pat);
        }
        lemma_find_from(s, pat, start + 1);
    }
}

/// `find_from` yields `b` when `pat` occurs at `b` and nowhere in
/// `[start, b)`.
pub proof fn lemma_find_from_first(s: Seq<char>, pat: Seq<char>, start: int, b: int)
    requires
        0 <= start <= b,
        matches_at(s, pat, b),
        forall|j: int| start <= j < b ==> !#[trigger] matches_at(s, pat, j),
    ensures
        find_from(s, pat, start) == Some(b),
{
    lemma_find_from(s, pat, start);
}

/// A one-character pattern occurs at `j` exactly when `s[j]` is that
/// character.
pub proof fn lemma_matches_char(s: Seq<char>, c: char, j: int)
    ensures
        matches_at(s, seq![c], j) <==> (0 <= j < s.len() && s[j] == c),
{
    if 0 <= j < s.len() {
        if s[j] == c {
            assert(s.subrange(j, j + 1) =~= seq![c]);
        } else {
            assert(s.subrange(j, j + 1)[0] == s[j]);
        }
    }
}

/// `find` yields `Some` exactly when the pattern occurs.
pub proof fn lemma_find_contains(s: Seq<char>, pat: Seq<char>)
    ensures
        find(s, pat) is Some <==> contains(s, pat),
        find(s, pat) matches Some(i) ==> 0 <= i && i + pat.len() <= s.len(),
{
    lemma_find_from(s, pat, 0);
    if contains(s, pat) {
        let i = choose|i: int| matches_at(s, pat, i);
        assert(0 <= i);
    }
}

/// Whether `pat` occurs in `s` at index `i`.
pub fn matches_at_exec(s: &[char], pat: &[char], i: usize) -> (r: bool)
    ensures
        r == matches_at(s@, pat@, i as int),
{
    if i > s.len() || pat.len() > s.len() - i {
        return false;
    }
    let n = s.len();
    let mut k: usize = 0;
    while k < pat.len()
        invariant
            n == s@.len(),
            i + pat@.len() <= s@.len(),
            k <= pat@.len(),
            forall|j: int| 0 <= j < k ==> s@[i + j] == pat@[j],
        decreases pat@.len() - k,
    {
        if s[i + k] != pat[k] {
            assert(s@.subrange(i as int, i + pat@.len())[k as int] != pat@[k as int]);
            return false;
        }
        k += 1;
    }
    assert(s@.subrange(i as int, i + pat@.len()) =~= pat@);
    true
}

/// The first index `>= start` at which `pat` occurs in `s`.
pub fn find_from_exec(s: &[char], pat: &[char], start: usize) -> (r: Option<usize>)
    ensures
        match r {
            Some(i) => find_from(s@, pat@, start as int) == Some(i as int),
            None => find_from(s@, pat@, start as int) is None,
        },
{
    let n = s.len();
    if pat.len() == 0 {
        if start <= n {
            assert(s@.subrange(start as int, start as int) =~= pat@);
            return Some(start);
        } else {
            return None;
        }
    }
    let mut i = start;
    while i <= n && pat.len() <= n - i
        invariant
            n == s@.len(),
            pat@.len() > 0,
            start <= i,
            find_from(s@, pat@, start as int) == find_from(s@, pat@, i as int),
        decreases s@.len() + 1 - i,
    {
        if matches_at_exec(s, pat, i) {
            return Some(i);
        }
        i += 1;
    }
    None
}

/// Whether `pat` occurs in `s`.
pub fn contains_exec(s: &[char], pat: &[char]) -> (r: bool)
    ensures
        r == contains(s@, pat@),
{
    proof {
        lemma_find_contains(s@, pat@);
    }
    find_from_exec(s, pat, 0).is_some()
}

/// Whether the text `s` contains the text `pat`.
pub fn str_contains(s: &str, pat: &str) -> (r: bool)
    ensures
        r == contains(s@, pat@),
{
    let vs = chars_of(s);
    let vp = chars_of(pat);
    contains_exec(vs.as_slice(), vp.as_slice())
}


// ---------------------------------------------------------------------------
// ANSI escape sequences
// ---------------------------------------------------------------------------

/// The escape character that opens an ANSI control sequence.
pub open spec fn esc() -> char {
    '\x1b'
}

/// ASCII letters, which close an ANSI control sequence.
pub open spec fn is_ascii_alpha(c: char) -> bool {
    ('a' <= c && c <= 'z') || ('A' <= c && c <= 'Z')
}

/// Whether `c` is an ASCII letter.
pub fn is_ascii_alpha_exec(c: char) -> (r: bool)
    ensures
        r == is_ascii_alpha(c),
{
    ('a' <= c && c <= 'z') || ('A' <= c && c <= 'Z')
}

/// Scanner state after reading `c` in state `in_esc`: an escape character
/// opens a sequence, a letter closes an open one.
pub open spec fn esc_next(c: char, in_esc: bool) -> bool {
    if c == esc() {
        true
    } else if in_esc {
        !is_ascii_alpha(c)
    } else {
        false
    }
}

/// The characters of `s` that are shown on a terminal, when scanning starts
/// inside an escape sequence exactly when `in_esc` holds.
pub open spec fn visible_from(s: Seq<char>, in_esc: bool) -> Seq<char>
    decreases s.len(),
{
    if s.len() == 0 {
        Seq::empty()
    } else {
        let c = s[0];
        let shown: Seq<char> = if c != esc() && !in_esc {
            seq![c]
        } else {
            Seq::empty()
        };
        shown + visible_from(s.drop_first(), esc_next(c, in_esc))
    }
}

/// Scanner state after reading all of `s` from state `in_esc`.
pub open spec fn esc_after(s: Seq<char>, in_esc: bool) -> bool
    decreases s.len(),
{
    if s.len() == 0 {
        in_esc
    } else {
        esc_after(s.drop_first(), esc_next(s[0], in_esc))
    }
}

/// `s` with every ANSI escape sequence (escape character up to and including
/// the next ASCII letter) removed.
pub open spec fn strip_ansi_spec(s: Seq<char>) -> Seq<char> {
    visible_from(s, false)
}

/// `s` leaves no escape sequence open.
pub open spec fn ansi_closed(s: Seq<char>) -> bool {
    !esc_after(s, false)
}

/// `s` holds no escape character.
pub open spec fn no_esc(s: Seq<char>) -> bool {
    forall|i: int| 0 <= i < s.len() ==> s[i] != esc()
}

/// Removes every ANSI escape sequence from `s`: an escape character starts a
/// sequence, which ends with the next ASCII letter.
pub fn strip_ansi(s: &str) -> (r: String)
    ensures
        r@ == strip_ansi_spec(s@),
{
    let chars = chars_of(s);
    let mut result = String::new();
    let mut in_ansi = false;
    let mut i: usize = 0;
    assert(s@.skip(0) =~= s@);
    while i < chars.len()
        invariant
            chars@ == s@,
            i <= chars@.len(),
            result@ + visible_from(s@.skip(i as int), in_ansi) == strip_ansi_spec(s@),
        decreases chars@.len() - i,
    {
        let c = chars[i];
        proof {
            assert(s@.skip(i as int).drop_first() =~= s@.skip(i + 1));
        }
        if c == '\x1b' {
            in_ansi = true;
            i += 1;
            continue;
        }
        if in_ansi {
            if is_ascii_alpha_exec(c) {
                in_ansi = false;
            }
            i += 1;
            continue;
        }
        let ghost prev = result@;
        push_char(&mut result, c);
        proof {
            assert(result@ + visible_from(s@.skip(i + 1), false) =~= prev + (seq![c]
                + visible_from(s@.skip(i + 1), false)));
        }
        i += 1;
    }
    proof {
        assert(s@.skip(i as int) =~= Seq::<char>::empty());
        assert(result@ + Seq::<char>::empty() =~= result@);
    }
    result
}

/// Scanning a concatenation shows what each part shows, the second part
/// scanned from the state the first one leaves.
pub proof fn lemma_visible_concat(a: Seq<char>, b: Seq<char>, in_esc: bool)
    ensures
        visible_from(a + b, in_esc) == visible_from(a, in_esc) + visible_from(
            b,
            esc_after(a, in_esc),
        ),
        esc_after(a + b, in_esc) == esc_after(b, esc_after(a, in_esc)),
    decreases a.len(),
{
    if a.len() == 0 {
        assert(a + b =~= b);
        assert(Seq::<char>::empty() + visible_from(b, in_esc) =~= visible_from(b, in_esc));
    } else {
        let c = a[0];
        assert((a + b).drop_first() =~= a.drop_first() + b);
        lemma_visible_concat(a.drop_first(), b, esc_next(c, in_esc));
        let shown: Seq<char> = if c != esc() && !in_esc {
            seq![c]
        } else {
            Seq::empty()
        };
        assert(shown + (visible_from(a.drop_first(), esc_next(c, in_esc)) + visible_from(
            b,
            esc_after(a, in_esc),
        )) =~= (shown + visible_from(a.drop_first(), esc_next(c, in_esc))) + visible_from(
            b,
            esc_after(a, in_esc),
        ));
    }
}

/// Text without escape characters is shown as it is, and leaves the scanner
/// outside any escape sequence.
pub proof fn lemma_visible_plain(s: Seq<char>)
    requires
        no_esc(s),
    ensures
        visible_from(s, false) == s,
        esc_after(s, false) == false,
    decreases s.len(),
{
    if s.len() > 0 {
        assert(no_esc(s.drop_first()));
        lemma_visible_plain(s.drop_first());
        assert(seq![s[0]] + s.drop_first() =~= s);
    } else {
        assert(s =~= Seq::<char>::empty());
    }
}

/// What is shown holds no escape character.
pub proof fn lemma_visible_no_esc(s: Seq<char>, in_esc: bool)
    ensures
        no_esc(visible_from(s, in_esc)),
    decreases s.len(),
{
    if s.len() > 0 {
        lemma_visible_no_esc(s.drop_first(), esc_next(s[0], in_esc));
        let c = s[0];
        let shown: Seq<char> = if c != esc() && !in_esc {
            seq![c]
        } else {
            Seq::empty()
        };
        let rest = visible_from(s.drop_first(), esc_next(c, in_esc));
        assert forall|i: int| 0 <= i < (shown + rest).len() implies (shown + rest)[i] != esc() by {
            if i >= shown.len() {
                assert((shown + rest)[i] == rest[i - shown.len()]);
            }
        }
    }
}

/// Stripping escape sequences removes every escape character, and stripping
/// twice is the same as stripping once.
pub proof fn lemma_strip_ansi_idempotent(s: Seq<char>)
    ensures
        no_esc(strip_ansi_spec(s)),
        strip_ansi_spec(strip_ansi_spec(s)) == strip_ansi_spec(s),
{
    lemma_visible_no_esc(s, false);
    lemma_visible_plain(strip_ansi_spec(s));
}

/// Inside an escape sequence, characters that are not ASCII letters show
/// nothing and leave the sequence open.
proof fn lemma_inside_sequence(p: Seq<char>)
    requires
        forall|i: int| 0 <= i < p.len() ==> !is_ascii_alpha(#[trigger] p[i]),
    ensures
        visible_from(p, true) == Seq::<char>::empty(),
        esc_after(p, true),
    decreases p.len(),
{
    if p.len() > 0 {
        lemma_inside_sequence(p.drop_first());
        assert(visible_from(p, true) =~= Seq::<char>::empty() + visible_from(p.drop_first(), true));
    }
}

/// Stripping keeps text without an escape character as it is, and drops each
/// escape sequence whole: after plain text `a`, an escape character, then
/// characters that are not ASCII letters and then an ASCII letter drop out,
/// and the rest is stripped in turn.
pub proof fn lemma_strip_ansi_removes_sequences(
    a: Seq<char>,
    params: Seq<char>,
    letter: char,
    rest: Seq<char>,
)
    requires
        forall|i: int| 0 <= i < a.len() ==> a[i] != '\x1b',
        forall|i: int|
            0 <= i < params.len() ==> !(('a' <= #[trigger] params[i] && params[i] <= 'z') || (
            'A' <= params[i] && params[i] <= 'Z')),
        ('a' <= letter && letter <= 'z') || ('A' <= letter && letter <= 'Z'),
    ensures
        strip_ansi_spec(a) == a,
        strip_ansi_spec(a + seq!['\x1b'] + params + seq![letter] + rest) == a + strip_ansi_spec(
            rest,
        ),
{
    assert(no_esc(a));
    lemma_visible_plain(a);
    lemma_inside_sequence(params);
    let tail = seq![letter] + rest;
    let seqn = seq!['\x1b'] + (params + tail);
    assert(a + seq!['\x1b'] + params + seq![letter] + rest =~= a + seqn);
    lemma_visible_concat(a, seqn, false);
    assert(seqn.drop_first() =~= params + tail);
    assert(visible_from(seqn, false) =~= Seq::<char>::empty() + visible_from(params + tail, true));
    lemma_visible_concat(params, tail, true);
    assert(tail.drop_first() =~= rest);
    assert(visible_from(tail, true) =~= Seq::<char>::empty() + visible_from(rest, false));
    assert(visible_from(params + tail, true) =~= visible_from(rest, false));
}

// ---------------------------------------------------------------------------
// Padding and truncation
// ---------------------------------------------------------------------------

/// `n` copies of `c`.
pub open spec fn fill(c: char, n: nat) -> Seq<char> {
    Seq::new(n, |_i: int| c)
}

/// A string of `n` copies of `c`.
pub fn repeat_char(c: char, n: usize) -> (r: String)
    ensures
        r@ == fill(c, n as nat),
{
    let mut r = String::new();
    let mut i: usize = 0;
    while i < n
        invariant
            i <= n,
            r@ == fill(c, i as nat),
        decreases n - i,
    {
        push_char(&mut r, c);
        i += 1;
        assert(r@ =~= fill(c, i as nat));
    }
    r
}

/// `s` padded with `fillchar` so that its visible part (escape sequences
/// removed) is at least `width` characters wide: on the right for `"left"`,
/// on the left for `"right"`, and evenly on both sides (the extra one on the
/// right) for any other alignment.
pub open spec fn pad_colored_spec(s: Seq<char>, width: nat, fillchar: char, align: Seq<char>) -> Seq<
    char,
> {
    let plain_len = strip_ansi_spec(s).len();
    let padding: nat = if width > plain_len {
        (width - plain_len) as nat
    } else {
        0
    };
    if align == "left"@ {
        s + fill(fillchar, padding)
    } else if align == "right"@ {
        fill(fillchar, padding) + s
    } else {
        let left_pad: nat = padding / 2;
        fill(fillchar, left_pad) + s + fill(fillchar, (padding - left_pad) as nat)
    }
}

/// Pads `s` with `fillchar` to a visible width of `width`, ignoring ANSI
/// escape sequences when measuring it.
pub fn pad_colored(s: &str, width: usize, fillchar: char, align: &str) -> (r: String)
    ensures
        r@ == pad_colored_spec(s@, width as nat, fillchar, align@),
{
    let plain = strip_ansi(s);
    let plain_len = char_count(plain.as_str());
    let padding = if width > plain_len {
        width - plain_len
    } else {
        0
    };
    if str_eq(align, "left") {
        let mut r = owned(s);
        let f = repeat_char(fillchar, padding);
        r.append(f.as_str());
        r
    } else if str_eq(align, "right") {
        let mut r = repeat_char(fillchar, padding);
        r.append(s);
        r
    } else {
        let left_pad = padding / 2;
        let right_pad = padding - left_pad;
        let mut r = repeat_char(fillchar, left_pad);
        r.append(s);
        let f = repeat_char(fillchar, right_pad);
        r.append(f.as_str());
        r
    }
}

/// Filling with a character other than the escape character is shown as it
/// is and leaves the scanner where it was outside a sequence.
pub proof fn lemma_fill_plain(c: char, n: nat)
    requires
        c != esc(),
    ensures
        visible_from(fill(c, n), false) == fill(c, n),
        esc_after(fill(c, n), false) == false,
{
    lemma_visible_plain(fill(c, n));
}

/// Padding a text that closes its escape sequences, with a fill character
/// that is not the escape character, makes its visible width the larger of
/// `width` and its former visible width, and keeps its visible text between
/// the fill characters.
pub proof fn lemma_pad_colored_visible_width(
    s: Seq<char>,
    width: nat,
    fillchar: char,
    align: Seq<char>,
)
    requires
        fillchar != esc(),
        ansi_closed(s),
    ensures
        strip_ansi_spec(pad_colored_spec(s, width, fillchar, align)).len() == if width
            > strip_ansi_spec(s).len() {
            width
        } else {
            strip_ansi_spec(s).len()
        },
{
    let plain_len = strip_ansi_spec(s).len();
    let padding: nat = if width > plain_len {
        (width - plain_len) as nat
    } else {
        0
    };
    let left_pad: nat = padding / 2;
    lemma_fill_plain(fillchar, padding);
    lemma_fill_plain(fillchar, left_pad);
    lemma_fill_plain(fillchar, (padding - left_pad) as nat);
    if align == "left"@ {
        lemma_visible_concat(s, fill(fillchar, padding), false);
    } else if align == "right"@ {
        lemma_visible_concat(fill(fillchar, padding), s, false);
    } else {
        let a = fill(fillchar, left_pad);
        let b = fill(fillchar, (padding - left_pad) as nat);
        lemma_visible_concat(a, s, false);
        lemma_visible_concat(a + s, b, false);
    }
}

/// `s` itself when it has at most `max` characters, else its first `keep`
/// characters followed by `"..."`.
pub open spec fn truncate_spec(s: Seq<char>, max: nat, keep: nat) -> Seq<char> {
    if s.len() > max {
        s.take(keep as int) + "..."@
    } else {
        s
    }
}

/// Shortens `s` to its first `keep` characters and `"..."` when it is longer
/// than `max` characters.
pub fn truncate_chars(s: &str, max: usize, keep: usize) -> (r: String)
    requires
        keep <= max,
    ensures
        r@ == truncate_spec(s@, max as nat, keep as nat),
{
    let v = chars_of(s);
    if v.len() > max {
        let mut r = string_of_range(v.as_slice(), 0, keep);
        r.append("...");
        r
    } else {
        owned(s)
    }
}

/// `s` left-justified in a field of `width` characters (the `{:<width}`
/// format): followed by spaces up to `width` characters.
pub open spec fn ljust(s: Seq<char>, width: nat) -> Seq<char> {
    if s.len() < width {
        s + fill(' ', (width - s.len()) as nat)
    } else {
        s
    }
}

/// `s` followed by spaces up to `width` characters.
pub fn ljust_exec(s: &str, width: usize) -> (r: String)
    ensures
        r@ == ljust(s@, width as nat),
{
    let n = char_count(s);
    let mut r = owned(s);
    if n < width {
        let f = repeat_char(' ', width - n);
        r.append(f.as_str());
    }
    r
}

// ---------------------------------------------------------------------------
// Replacement
// ---------------------------------------------------------------------------

/// `s` with every non-overlapping occurrence of `from`, taken from left to
/// right, replaced by `to`.
pub open spec fn replace_spec(s: Seq<char>, from: Seq<char>, to: Seq<char>) -> Seq<char>
    decreases s.len(),
{
    if s.len() == 0 {
        Seq::empty()
    } else if from.len() > 0 && from.len() <= s.len() && s.take(from.len() as int) == from {
        to + replace_spec(s.skip(from.len() as int), from, to)
    } else {
        seq![s[0]] + replace_spec(s.drop_first(), from, to)
    }
}

/// Replaces every non-overlapping occurrence of the non-empty `from` in `s`,
/// from left to right, by `to`.
pub fn replace_all(s: &str, from: &str, to: &str) -> (r: String)
    requires
        from@.len() > 0,
    ensures
        r@ == replace_spec(s@, from@, to@),
{
    let v = chars_of(s);
    let f = chars_of(from);
    let mut r = String::new();
    let mut i: usize = 0;
    assert(s@.skip(0) =~= s@);
    while i < v.len()
        invariant
            v@ == s@,
            f@ == from@,
            from@.len() > 0,
            i <= v@.len(),
            r@ + replace_spec(s@.skip(i as int), from@, to@) == replace_spec(s@, from@, to@),
        decreases v@.len() - i,
    {
        let ghost rest = s@.skip(i as int);
        let ghost prev = r@;
        if matches_at_exec(v.as_slice(), f.as_slice(), i) {
            proof {
                assert(rest.take(from@.len() as int) =~= s@.subrange(i as int, i + from@.len()));
                assert(rest.skip(from@.len() as int) =~= s@.skip(i + from@.len()));
                assert(prev + (to@ + replace_spec(s@.skip(i + from@.len()), from@, to@)) =~= (
                prev + to@) + replace_spec(s@.skip(i + from@.len()), from@, to@));
            }
            r.append(to);
            i += f.len();
        } else {
            proof {
                if from@.len() <= rest.len() {
                    assert(rest.take(from@.len() as int) =~= s@.subrange(
                        i as int,
                        i + from@.len(),
                    ));
                }
                assert(rest.drop_first() =~= s@.skip(i + 1));
                assert(prev + (seq![v@[i as int]] + replace_spec(s@.skip(i + 1), from@, to@))
                    =~= prev.push(v@[i as int]) + replace_spec(s@.skip(i + 1), from@, to@));
            }
            push_char(&mut r, v[i]);
            i += 1;
        }
    }
    proof {
        assert(s@.skip(i as int) =~= Seq::<char>::empty());
        assert(r@ + Seq::<char>::empty() =~= r@);
    }
    r
}

/// Text in which `from` does not occur is left as it is.
pub proof fn lemma_replace_absent(s: Seq<char>, from: Seq<char>, to: Seq<char>)
    requires
        from.len() > 0,
        !contains(s, from),
    ensures
        replace_spec(s, from, to) == s,
    decreases s.len(),
{
    if s.len() > 0 {
        if from.len() <= s.len() && s.take(from.len() as int) == from {
            assert(s.subrange(0, from.len() as int) =~= s.take(from.len() as int));
            assert(matches_at(s, from, 0));
        }
        let rest = s.drop_first();
        assert(!contains(rest, from)) by {
            if contains(rest, from) {
                let i = choose|i: int| matches_at(rest, from, i);
                assert(s.subrange(i + 1, i + 1 + from.len()) =~= rest.subrange(i, i + from.len()));
                assert(matches_at(s, from, i + 1));
            }
        }
        lemma_replace_absent(rest, from, to);
        assert(seq![s[0]] + rest =~= s);
    }
}

/// A prefix `a` at none of whose positions `from` starts is kept as it is.
pub proof fn lemma_replace_after_plain_prefix(
    a: Seq<char>,
    rest: Seq<char>,
    from: Seq<char>,
    to: Seq<char>,
)
    requires
        from.len() > 0,
        forall|j: int| 0 <= j < a.len() ==> !#[trigger] matches_at(a + rest, from, j),
    ensures
        replace_spec(a + rest, from, to) == a + replace_spec(rest, from, to),
    decreases a.len(),
{
    if a.len() > 0 {
        let s = a + rest;
        assert(!matches_at(s, from, 0));
        if from.len() <= s.len() && s.take(from.len() as int) == from {
            assert(s.subrange(0, from.len() as int) =~= s.take(from.len() as int));
        }
        let a1 = a.drop_first();
        assert(s.drop_first() =~= a1 + rest);
        assert forall|j: int| 0 <= j < a1.len() implies !#[trigger] matches_at(a1 + rest, from, j) by {
            assert(!matches_at(s, from, j + 1));
            if matches_at(a1 + rest, from, j) {
                assert((a1 + rest).subrange(j, j + from.len()) =~= s.subrange(
                    j + 1,
                    j + 1 + from.len(),
                ));
            }
        }
        lemma_replace_after_plain_prefix(a1, rest, from, to);
        assert(a + replace_spec(rest, from, to) =~= seq![s[0]] + (a1 + replace_spec(
            rest,
            from,
            to,
        )));
    }
}

/// An occurrence of `from` at the front is replaced by `to`.
pub proof fn lemma_replace_front(rest: Seq<char>, from: Seq<char>, to: Seq<char>)
    requires
        from.len() > 0,
    ensures
        replace_spec(from + rest, from, to) == to + replace_spec(rest, from, to),
{
    let s = from + rest;
    assert(s.take(from.len() as int) =~= from);
    assert(s.skip(from.len() as int) =~= rest);
}

/// Replacing an occurring pattern leaves its replacement in the text.
pub proof fn lemma_replace_contains(s: Seq<char>, from: Seq<char>, to: Seq<char>)
    requires
        from.len() > 0,
        contains(s, from),
    ensures
        contains(replace_spec(s, from, to), to),
    decreases s.len(),
{
    let i = choose|i: int| matches_at(s, from, i);
    if from.len() <= s.len() && s.take(from.len() as int) == from {
        let r = replace_spec(s.skip(from.len() as int), from, to);
        assert((to + r).subrange(0, to.len() as int) =~= to);
        assert(matches_at(to + r, to, 0));
    } else {
        if i == 0 {
            assert(s.take(from.len() as int) =~= s.subrange(0, from.len() as int));
        }
        assert(i > 0);
        let rest = s.drop_first();
        assert(rest.subrange(i - 1, i - 1 + from.len()) =~= s.subrange(i, i + from.len()));
        assert(matches_at(rest, from, i - 1));
        lemma_replace_contains(rest, from, to);
        let r = replace_spec(rest, from, to);
        let j = choose|j: int| matches_at(r, to, j);
        assert((seq![s[0]] + r).subrange(j + 1, j + 1 + to.len()) =~= r.subrange(
            j,
            j + to.len(),
        ));
        assert(matches_at(seq![s[0]] + r, to, j + 1));
    }
}


// ---------------------------------------------------------------------------
// Trimming
// ---------------------------------------------------------------------------

/// Unicode white space (the `White_Space` property).
pub open spec fn is_whitespace(c: char) -> bool {
    ||| c == ' '
    ||| ('\t' <= c && c <= '\r')
    ||| c == '\u{85}'
    ||| c == '\u{a0}'
    ||| c == '\u{1680}'
    ||| ('\u{2000}' <= c && c <= '\u{200a}')
    ||| c == '\u{2028}'
    ||| c == '\u{2029}'
    ||| c == '\u{202f}'
    ||| c == '\u{205f}'
    ||| c == '\u{3000}'
}

/// Whether `c` is Unicode white space.
pub fn is_whitespace_exec(c: char) -> (r: bool)
    ensures
        r == is_whitespace(c),
{
    c == ' ' || ('\t' <= c && c <= '\r') || c == '\u{85}' || c == '\u{a0}' || c == '\u{1680}'
        || ('\u{2000}' <= c && c <= '\u{200a}') || c == '\u{2028}' || c == '\u{2029}' || c
        == '\u{202f}' || c == '\u{205f}' || c == '\u{3000}'
}

/// `s` without leading white space.
pub open spec fn trim_start(s: Seq<char>) -> Seq<char>
    decreases s.len(),
{
    if s.len() > 0 && is_whitespace(s[0]) {
        trim_start(s.drop_first())
    } else {
        s
    }
}

/// `s` without trailing white space.
pub open spec fn trim_end(s: Seq<char>) -> Seq<char>
    decreases s.len(),
{
    if s.len() > 0 && is_whitespace(s.last()) {
        trim_end(s.drop_last())
    } else {
        s
    }
}

/// `s` without leading and trailing white space (`str::trim`).
pub open spec fn trim_spec(s: Seq<char>) -> Seq<char> {
    trim_end(trim_start(s))
}

proof fn lemma_trim_start_skip(s: Seq<char>, k: int)
    requires
        0 <= k <= s.len(),
        forall|i: int| 0 <= i < k ==> is_whitespace(#[trigger] s[i]),
    ensures
        trim_start(s) == trim_start(s.skip(k)),
    decreases k,
{
    if k > 0 {
        assert(s.drop_first().skip(k - 1) =~= s.skip(k));
        assert forall|i: int| 0 <= i < k - 1 implies is_whitespace(#[trigger] s.drop_first()[i]) by {
            assert(s.drop_first()[i] == s[i + 1]);
        }
        lemma_trim_start_skip(s.drop_first(), k - 1);
    } else {
        assert(s.skip(0) =~= s);
    }
}

proof fn lemma_trim_end_take(s: Seq<char>, k: int)
    requires
        0 <= k <= s.len(),
        forall|i: int| k <= i < s.len() ==> is_whitespace(#[trigger] s[i]),
    ensures
        trim_end(s) == trim_end(s.take(k)),
    decreases s.len() - k,
{
    if k < s.len() {
        assert(s.drop_last().take(k) =~= s.take(k));
        assert forall|i: int| k <= i < s.len() - 1 implies is_whitespace(#[trigger] s.drop_last()[i]) by {
            assert(s.drop_last()[i] == s[i]);
        }
        assert(is_whitespace(s[s.len() - 1]));
        lemma_trim_end_take(s.drop_last(), k);
    } else {
        assert(s.take(k) =~= s);
    }
}

/// Trimming removes exactly the white space around the text: for `s` made
/// of white space `lead`, a `core` that is empty or starts and ends with a
/// character that is not white space, and white space `trail`, the trimmed
/// text is `core`.
pub proof fn lemma_trim_keeps_core(lead: Seq<char>, core: Seq<char>, trail: Seq<char>)
    requires
        forall|i: int| 0 <= i < lead.len() ==> is_whitespace(#[trigger] lead[i]),
        forall|i: int| 0 <= i < trail.len() ==> is_whitespace(#[trigger] trail[i]),
        core.len() > 0 ==> !is_whitespace(core[0]) && !is_whitespace(core.last()),
    ensures
        trim_spec(lead + core + trail) == core,
{
    let s = lead + core + trail;
    let k = lead.len() as int;
    assert forall|i: int| 0 <= i < k implies is_whitespace(#[trigger] s[i]) by {
        assert(s[i] == lead[i]);
    }
    lemma_trim_start_skip(s, k);
    let t = s.skip(k);
    assert(t =~= core + trail);
    if core.len() > 0 {
        assert(t[0] == core[0]);
        assert(trim_start(t) == t);
    } else {
        assert(t =~= trail);
        assert forall|i: int| 0 <= i < t.len() implies is_whitespace(#[trigger] t[i]) by {
            assert(t[i] == trail[i]);
        }
        lemma_trim_start_skip(t, t.len() as int);
        assert(t.skip(t.len() as int) =~= Seq::<char>::empty());
    }
    let st = trim_start(s);
    assert(st == if core.len() > 0 {
        core + trail
    } else {
        Seq::<char>::empty()
    });
    if core.len() > 0 {
        let c = core.len() as int;
        assert forall|i: int| c <= i < st.len() implies is_whitespace(#[trigger] st[i]) by {
            assert(st[i] == trail[i - c]);
        }
        lemma_trim_end_take(st, c);
        assert(st.take(c) =~= core);
        assert(trim_end(core) == core);
    }
}

/// Removes leading and trailing Unicode white space from `s`.
pub fn trim(s: &str) -> (r: String)
    ensures
        r@ == trim_spec(s@),
{
    let v = chars_of(s);
    let n = v.len();
    let mut lo: usize = 0;
    while lo < n && is_whitespace_exec(v[lo])
        invariant
            v@ == s@,
            n == v@.len(),
            lo <= n,
            forall|i: int| 0 <= i < lo ==> is_whitespace(#[trigger] s@[i]),
        decreases n - lo,
    {
        lo += 1;
    }
    let mut hi: usize = n;
    while hi > lo && is_whitespace_exec(v[hi - 1])
        invariant
            v@ == s@,
            n == v@.len(),
            lo <= hi <= n,
            forall|i: int| hi <= i < n ==> is_whitespace(#[trigger] s@[i]),
        decreases hi,
    {
        hi -= 1;
    }
    proof {
        lemma_trim_start_skip(s@, lo as int);
        let t = s@.skip(lo as int);
        if lo < n {
            assert(!is_whitespace(t[0]));
            assert(trim_start(t) == t);
        } else {
            assert(t.len() == 0);
        }
        assert forall|i: int| hi - lo <= i < t.len() implies is_whitespace(#[trigger] t[i]) by {
            assert(t[i] == s@[i + lo]);
        }
        lemma_trim_end_take(t, hi - lo);
        let u = t.take(hi - lo);
        if hi > lo {
            assert(u.last() == s@[hi - 1]);
        }
        assert(trim_end(u) == u);
        assert(u =~= s@.subrange(lo as int, hi as int));
    }
    string_of_range(v.as_slice(), lo, hi)
}

// ---------------------------------------------------------------------------
// Decimal numerals
// ---------------------------------------------------------------------------

/// The character of decimal digit `d`.
pub open spec fn digit_char(d: nat) -> char {
    (d + 48) as char
}

/// The decimal numeral of `n`, without leading zeros.
pub open spec fn decimal(n: nat) -> Seq<char>
    decreases n,
{
    if n < 10 {
        seq![digit_char(n)]
    } else {
        decimal(n / 10).push(digit_char(n % 10))
    }
}

/// The decimal numeral of `n`, with a leading `-` when it is negative.
pub open spec fn signed_decimal(n: int) -> Seq<char> {
    if n < 0 {
        seq!['-'] + decimal((-n) as nat)
    } else {
        decimal(n as nat)
    }
}

/// The decimal numeral of `n`.
pub fn u64_to_decimal(n: u64) -> (r: String)
    ensures
        r@ == decimal(n as nat),
    decreases n,
{
    let d = (n % 10) as u8;
    let c = (d + 48) as char;
    if n < 10 {
        let mut r = String::new();
        push_char(&mut r, c);
        r
    } else {
        let mut r = u64_to_decimal(n / 10);
        push_char(&mut r, c);
        r
    }
}

/// The decimal numeral of `n`, with a leading `-` when it is negative.
pub fn i32_to_decimal(n: i32) -> (r: String)
    ensures
        r@ == signed_decimal(n as int),
{
    if n < 0 {
        let m: u64 = (0i64 - (n as i64)) as u64;
        let digits = u64_to_decimal(m);
        let mut r = String::new();
        push_char(&mut r, '-');
        r.append(digits.as_str());
        r
    } else {
        u64_to_decimal(n as u64)
    }
}

} // verus!
