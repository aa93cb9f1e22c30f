//! Pure text utilities shared by the library: ASCII case folding,
//! whitespace trimming, splitting and joining on a separator character,
//! and substring search.  All contracts are stated over `Seq<char>` views.

use vstd::prelude::*;

verus! {

/// ASCII whitespace, the only whitespace the library's formats use.
pub open spec fn is_space_char(c: char) -> bool {
    c == ' ' || c == '\t' || c == '\r' || c == '\n'
}

/// ASCII lowercase folding of one character; everything outside `A..=Z`
/// is left as it is.
pub open spec fn lower_char(c: char) -> char {
    if 'A' <= c && c <= 'Z' {
        ((c as u32) + 32) as char
    } else {
        c
    }
}

/// ASCII lowercase folding of a character sequence.
pub open spec fn lower_seq(s: Seq<char>) -> Seq<char> {
    s.map_values(|c: char| lower_char(c))
}

/// Equality up to ASCII case.
pub open spec fn eq_ignore_case(a: Seq<char>, b: Seq<char>) -> bool {
    lower_seq(a) == lower_seq(b)
}

/// Lowercasing is idempotent.
pub proof fn lemma_lower_idempotent(s: Seq<char>)
    ensures
        lower_seq(lower_seq(s)) == lower_seq(s),
{
    assert forall|i: int| 0 <= i < s.len() implies lower_char(lower_char(s[i])) == lower_char(
        s[i],
    ) by {
        let c = s[i];
        if 'A' <= c && c <= 'Z' {
            assert(!('A' <= lower_char(c) && lower_char(c) <= 'Z'));
        }
    }
    assert(lower_seq(lower_seq(s)) =~= lower_seq(s));
}

/// `s` with leading and trailing characters satisfying `pred` removed.
pub open spec fn trim_pred(s: Seq<char>, pred: spec_fn(char) -> bool) -> Seq<char>
    decreases s.len(),
{
    if s.len() == 0 {
        s
    } else if pred(s[0]) {
        trim_pred(s.drop_first(), pred)
    } else if pred(s[s.len() - 1]) {
        trim_pred(s.drop_last(), pred)
    } else {
        s
    }
}

/// `s` with leading and trailing ASCII whitespace removed.
pub open spec fn trim_seq(s: Seq<char>) -> Seq<char> {
    trim_pred(s, |c: char| is_space_char(c))
}

/// Index of the first occurrence of `sep` in `s`, or `s.len()` when absent.
pub open spec fn find_char(s: Seq<char>, sep: char) -> int
    decreases s.len(),
{
    if s.len() == 0 {
        0
    } else if s[0] == sep {
        0
    } else {
        1 + find_char(s.drop_first(), sep)
    }
}

pub proof fn lemma_find_char(s: Seq<char>, sep: char)
    ensures
        0 <= find_char(s, sep) <= s.len(),
        find_char(s, sep) < s.len() ==> s[find_char(s, sep)] == sep,
        forall|i: int| 0 <= i < find_char(s, sep) ==> s[i] != sep,
    decreases s.len(),
{
    if s.len() != 0 && s[0] != sep {
        lemma_find_char(s.drop_first(), sep);
        assert forall|i: int| 0 <= i < find_char(s, sep) implies s[i] != sep by {
            if i > 0 {
                assert(s[i] == s.drop_first()[i - 1]);
            }
        }
    }
}

/// The pieces of `s` between occurrences of `sep`.  A sequence with no
/// separator is one piece; each separator ends a piece, so a trailing
/// separator yields a trailing empty piece.
pub open spec fn split_seq(s: Seq<char>, sep: char) -> Seq<Seq<char>>
    decreases s.len(),
{
    let i = find_char(s, sep);
    if 0 <= i < s.len() {
        seq![s.subrange(0, i)] + split_seq(s.subrange(i + 1, s.len() as int), sep)
    } else {
        seq![s]
    }
}

pub proof fn lemma_split_seq_len(s: Seq<char>, sep: char)
    ensures
        split_seq(s, sep).len() >= 1,
    decreases s.len(),
{
    lemma_find_char(s, sep);
    let i = find_char(s, sep);
    if 0 <= i < s.len() {
        lemma_split_seq_len(s.subrange(i + 1, s.len() as int), sep);
    }
}

/// The pieces of `pieces` joined back with `sep` between them.
pub open spec fn join_seq(pieces: Seq<Seq<char>>, sep: char) -> Seq<char>
    decreases pieces.len(),
{
    if pieces.len() == 0 {
        Seq::empty()
    } else if pieces.len() == 1 {
        pieces[0]
    } else {
        pieces[0] + seq![sep] + join_seq(pieces.drop_first(), sep)
    }
}

/// `a` begins with `p`.
pub open spec fn starts_with_seq(a: Seq<char>, p: Seq<char>) -> bool {
    a.len() >= p.len() && a.subrange(0, p.len() as int) == p
}

/// `a` ends with `p`.
pub open spec fn ends_with_seq(a: Seq<char>, p: Seq<char>) -> bool {
    a.len() >= p.len() && a.subrange(a.len() - p.len(), a.len() as int) == p
}

/// `needle` occurs in `hay` starting at some index.
pub open spec fn contains_seq(hay: Seq<char>, needle: Seq<char>) -> bool {
    exists|i: int|
        0 <= i <= hay.len() - needle.len() && #[trigger] hay.subrange(i, i + needle.len())
            == needle
}

/// Lowercase one character.
pub fn lower_char_exec(c: char) -> (r: char)
    ensures
        r == lower_char(c),
{
    if 'A' <= c && c <= 'Z' {
        let u = c as u32;
        ((u + 32) as u8) as char
    } else {
        c
    }
}

/// Whether `c` is ASCII whitespace.
pub fn is_space_char_exec(c: char) -> (r: bool)
    ensures
        r == is_space_char(c),
{
    c == ' ' || c == '\t' || c == '\r' || c == '\n'
}

/// Exact equality of two strings.
pub fn str_eq(a: &str, b: &str) -> (r: bool)
    ensures
        r == (a@ == b@),
{
    let an = a.unicode_len();
    let bn = b.unicode_len();
    if an != bn {
        return false;
    }
    let mut i: usize = 0;
    while i < an
        invariant
            an == a@.len(),
            an == b@.len(),
            0 <= i <= an,
            forall|j: int| 0 <= j < i ==> a@[j] == b@[j],
        decreases an - i,
    {
        if a.get_char(i) != b.get_char(i) {
            return false;
        }
        i = i + 1;
    }
    assert(a@ =~= b@);
    true
}

/// Compare two strings for equality up to ASCII case.
pub fn eq_ignore_ascii_case(a: &str, b: &str) -> (r: bool)
    ensures
        r == eq_ignore_case(a@, b@),
{
    let an = a.unicode_len();
    let bn = b.unicode_len();
    if an != bn {
        assert(lower_seq(a@).len() != lower_seq(b@).len());
        return false;
    }
    let mut i: usize = 0;
    while i < an
        invariant
            an == a@.len(),
            an == b@.len(),
            0 <= i <= an,
            forall|j: int| 0 <= j < i ==> lower_char(a@[j]) == lower_char(b@[j]),
        decreases an - i,
    {
        let ca = lower_char_exec(a.get_char(i));
        let cb = lower_char_exec(b.get_char(i));
        if ca != cb {
            assert(lower_seq(a@)[i as int] != lower_seq(b@)[i as int]);
            return false;
        }
        i = i + 1;
    }
    assert(lower_seq(a@) =~= lower_seq(b@));
    true
}

/// Lowercase a whole string.
pub fn to_ascii_lowercase(s: &str) -> (r: String)
    ensures
        r@ == lower_seq(s@),
{
    let n = s.unicode_len();
    let mut out = String::new();
    let mut i: usize = 0;
    while i < n
        invariant
            n == s@.len(),
            0 <= i <= n,
            out@ =~= lower_seq(s@).subrange(0, i as int),
        decreases n - i,
    {
        let c = lower_char_exec(s.get_char(i));
        out.append(char_to_str(c).as_str());
        i = i + 1;
        assert(out@ =~= lower_seq(s@).subrange(0, i as int));
    }
    assert(out@ =~= lower_seq(s@));
    out
}

/// One-character string.
///
/// Relies on String::from for char: the resulting string holds exactly the
/// given character.
#[verifier::external_body]
pub fn char_to_str(c: char) -> (r: String)
    ensures
        r@ == seq![c],
{
    String::from(c)
}

/// Trim leading and trailing ASCII whitespace.
pub fn trim_str(s: &str) -> (r: String)
    ensures
        r@ == trim_seq(s@),
{
    let n = s.unicode_len();
    let mut start: usize = 0;
    while start < n && is_space_char_exec(s.get_char(start))
        invariant
            n == s@.len(),
            0 <= start <= n,
            forall|j: int| 0 <= j < start ==> is_space_char(s@[j]),
        decreases n - start,
    {
        start = start + 1;
    }
    if start == n {
        proof {
            lemma_trim_all_match(s@, |c: char| is_space_char(c));
        }
        return String::new();
    }
    let mut end: usize = n;
    while end > start && is_space_char_exec(s.get_char(end - 1))
        invariant
            n == s@.len(),
            0 <= start <= end <= n,
            start < n,
            !is_space_char(s@[start as int]),
            forall|j: int| 0 <= j < start ==> is_space_char(s@[j]),
            forall|j: int| end <= j < n ==> is_space_char(s@[j]),
        decreases end,
    {
        end = end - 1;
    }
    proof {
        lemma_trim_bounds(s@, |c: char| is_space_char(c), start as int, end as int);
    }
    let r = s.substring_char(start, end);
    String::from_str(r)
}

/// `s` with leading and trailing `'-'` removed.
pub open spec fn trim_dashes_seq(s: Seq<char>) -> Seq<char> {
    trim_pred(s, |c: char| c == '-')
}

/// Trim leading and trailing dashes.
pub fn trim_dashes(s: &str) -> (r: String)
    ensures
        r@ == trim_dashes_seq(s@),
{
    let n = s.unicode_len();
    let mut start: usize = 0;
    while start < n && s.get_char(start) == '-'
        invariant
            n == s@.len(),
            0 <= start <= n,
            forall|j: int| 0 <= j < start ==> s@[j] == '-',
        decreases n - start,
    {
        start = start + 1;
    }
    if start == n {
        proof {
            lemma_trim_all_match(s@, |c: char| c == '-');
        }
        return String::new();
    }
    let mut end: usize = n;
    while end > start && s.get_char(end - 1) == '-'
        invariant
            n == s@.len(),
            0 <= start <= end <= n,
            start < n,
            s@[start as int] != '-',
            forall|j: int| 0 <= j < start ==> s@[j] == '-',
            forall|j: int| end <= j < n ==> s@[j] == '-',
        decreases end,
    {
        end = end - 1;
    }
    proof {
        lemma_trim_bounds(s@, |c: char| c == '-', start as int, end as int);
    }
    let r = s.substring_char(start, end);
    String::from_str(r)
}

/// When every character satisfies `pred` the trimmed sequence is empty.
pub proof fn lemma_trim_all_match(s: Seq<char>, pred: spec_fn(char) -> bool)
    requires
        forall|j: int| 0 <= j < s.len() ==> pred(s[j]),
    ensures
        trim_pred(s, pred) == Seq::<char>::empty(),
    decreases s.len(),
{
    if s.len() != 0 {
        lemma_trim_all_match(s.drop_first(), pred);
        assert(trim_pred(s, pred) == trim_pred(s.drop_first(), pred));
    } else {
        assert(trim_pred(s, pred) =~= Seq::<char>::empty());
    }
}

/// When `start..end` is the maximal interior whose first and last
/// characters fail `pred`, trimming yields exactly that subrange.
pub proof fn lemma_trim_bounds(s: Seq<char>, pred: spec_fn(char) -> bool, start: int, end: int)
    requires
        0 <= start < end <= s.len(),
        forall|j: int| 0 <= j < start ==> pred(s[j]),
        forall|j: int| end <= j < s.len() ==> pred(s[j]),
        !pred(s[start]),
        !pred(s[end - 1]),
    ensures
        trim_pred(s, pred) == s.subrange(start, end),
    decreases s.len(),
{
    if start > 0 {
        lemma_trim_bounds(s.drop_first(), pred, start - 1, end - 1);
        assert(s.drop_first().subrange(start - 1, end - 1) =~= s.subrange(start, end));
    } else if end < s.len() {
        lemma_trim_bounds(s.drop_last(), pred, start, end);
        assert(s.drop_last().subrange(start, end) =~= s.subrange(start, end));
        assert(trim_pred(s, pred) == trim_pred(s.drop_last(), pred));
    } else {
        assert(s.subrange(0, s.len() as int) =~= s);
    }
}

/// Split `s` on `sep`, one piece per separator boundary.
pub fn split_str(s: &str, sep: char) -> (r: Vec<String>)
    ensures
        r@.map_values(|p: String| p@) == split_seq(s@, sep),
{
    let n = s.unicode_len();
    let mut out: Vec<String> = Vec::new();
    let mut seg_start: usize = 0;
    let mut i: usize = 0;
    proof {
        assert(s@.subrange(0, n as int) =~= s@);
        assert(out@.map_values(|p: String| p@) =~= Seq::<Seq<char>>::empty());
    }
    while i < n
        invariant
            n == s@.len(),
            0 <= seg_start <= i <= n,
            forall|j: int| seg_start <= j < i ==> s@[j] != sep,
            split_seq(s@, sep) =~= out@.map_values(|p: String| p@) + split_seq(
                s@.subrange(seg_start as int, n as int),
                sep,
            ),
        decreases n - i,
    {
        if s.get_char(i) == sep {
            let piece = s.substring_char(seg_start, i);
            proof {
                lemma_split_step(s@, sep, seg_start as int, i as int);
            }
            out.push(String::from_str(piece));
            seg_start = i + 1;
        }
        i = i + 1;
    }
    let last = s.substring_char(seg_start, n);
    proof {
        lemma_split_last(s@, sep, seg_start as int);
    }
    out.push(String::from_str(last));
    proof {
        assert(out@.map_values(|p: String| p@) =~= split_seq(s@, sep));
    }
    out
}

/// Splitting a suffix whose first separator stands at `i - seg_start`
/// peels off exactly the piece `seg_start..i`.
proof fn lemma_split_step(s: Seq<char>, sep: char, seg_start: int, i: int)
    requires
        0 <= seg_start <= i < s.len(),
        forall|j: int| seg_start <= j < i ==> s[j] != sep,
        s[i] == sep,
    ensures
        split_seq(s.subrange(seg_start, s.len() as int), sep) =~= seq![
            s.subrange(seg_start, i),
        ] + split_seq(s.subrange(i + 1, s.len() as int), sep),
{
    let suffix = s.subrange(seg_start, s.len() as int);
    lemma_find_char_at(suffix, sep, i - seg_start);
    assert(suffix.subrange(0, i - seg_start) =~= s.subrange(seg_start, i));
    assert(suffix.subrange(i - seg_start + 1, suffix.len() as int) =~= s.subrange(
        i + 1,
        s.len() as int,
    ));
}

/// A suffix with no separator splits into itself alone.
proof fn lemma_split_last(s: Seq<char>, sep: char, seg_start: int)
    requires
        0 <= seg_start <= s.len(),
        forall|j: int| seg_start <= j < s.len() ==> s[j] != sep,
    ensures
        split_seq(s.subrange(seg_start, s.len() as int), sep) =~= seq![
            s.subrange(seg_start, s.len() as int),
        ],
{
    let suffix = s.subrange(seg_start, s.len() as int);
    lemma_find_char_none(suffix, sep);
}

/// `find_char` returns the known position of the first separator.
pub proof fn lemma_find_char_at(s: Seq<char>, sep: char, k: int)
    requires
        0 <= k < s.len(),
        s[k] == sep,
        forall|j: int| 0 <= j < k ==> s[j] != sep,
    ensures
        find_char(s, sep) == k,
    decreases s.len(),
{
    if k > 0 {
        lemma_find_char_at(s.drop_first(), sep, k - 1);
    }
}

/// Without a separator `find_char` returns the length.
pub proof fn lemma_find_char_none(s: Seq<char>, sep: char)
    requires
        forall|j: int| 0 <= j < s.len() ==> s[j] != sep,
    ensures
        find_char(s, sep) == s.len(),
    decreases s.len(),
{
    if s.len() != 0 {
        lemma_find_char_none(s.drop_first(), sep);
    }
}

/// Join strings with a separator character between them.
pub fn join_with(pieces: &Vec<String>, sep: char) -> (r: String)
    ensures
        r@ == join_seq(pieces@.map_values(|p: String| p@), sep),
{
    let mut out = String::new();
    let mut i: usize = 0;
    let sep_str = char_to_str(sep);
    while i < pieces.len()
        invariant
            0 <= i <= pieces@.len(),
            i == 0 ==> out@ =~= Seq::<char>::empty(),
            i > 0 ==> out@ =~= join_seq(
                pieces@.subrange(0, i as int).map_values(|p: String| p@),
                sep,
            ),
            sep_str@ == seq![sep],
        decreases pieces@.len() - i,
    {
        if i > 0 {
            out.append(sep_str.as_str());
        }
        out.append(pieces[i].as_str());
        proof {
            if i > 0 {
                lemma_join_snoc(pieces@.subrange(0, i as int).map_values(|p: String| p@),
                    pieces@[i as int]@, sep);
                assert(pieces@.subrange(0, i + 1).map_values(|p: String| p@) =~= pieces@.subrange(
                    0,
                    i as int,
                ).map_values(|p: String| p@).push(pieces@[i as int]@));
            } else {
                assert(pieces@.subrange(0, 1).map_values(|p: String| p@) =~= seq![
                    pieces@[0]@,
                ]);
            }
        }
        i = i + 1;
    }
    proof {
        if pieces@.len() > 0 {
            assert(pieces@.subrange(0, pieces@.len() as int) =~= pieces@);
        }
    }
    out
}

/// Appending one more piece extends the join by the separator and the piece.
proof fn lemma_join_snoc(pieces: Seq<Seq<char>>, last: Seq<char>, sep: char)
    requires
        pieces.len() >= 1,
    ensures
        join_seq(pieces.push(last), sep) =~= join_seq(pieces, sep) + seq![sep] + last,
    decreases pieces.len(),
{
    if pieces.len() == 1 {
        assert(pieces.push(last)[0] == pieces[0]);
        assert(pieces.push(last).drop_first() =~= seq![last]);
        assert(join_seq(seq![last], sep) == last);
        assert(join_seq(pieces.push(last), sep) =~= pieces[0] + seq![sep] + last);
        assert(join_seq(pieces, sep) == pieces[0]);
    } else {
        lemma_join_snoc(pieces.drop_first(), last, sep);
        assert(pieces.push(last).drop_first() =~= pieces.drop_first().push(last));
        assert(pieces.push(last)[0] == pieces[0]);
        assert(join_seq(pieces.push(last), sep) == pieces[0] + seq![sep] + join_seq(
            pieces.drop_first().push(last),
            sep,
        ));
        assert(join_seq(pieces, sep) == pieces[0] + seq![sep] + join_seq(
            pieces.drop_first(),
            sep,
        ));
    }
}

/// Whether `hay` starts with `needle`.
pub fn starts_with(hay: &str, needle: &str) -> (r: bool)
    ensures
        r == starts_with_seq(hay@, needle@),
{
    let hn = hay.unicode_len();
    let nn = needle.unicode_len();
    if hn < nn {
        return false;
    }
    let mut i: usize = 0;
    while i < nn
        invariant
            hn == hay@.len(),
            nn == needle@.len(),
            nn <= hn,
            0 <= i <= nn,
            forall|j: int| 0 <= j < i ==> hay@[j] == needle@[j],
        decreases nn - i,
    {
        if hay.get_char(i) != needle.get_char(i) {
            assert(hay@.subrange(0, nn as int)[i as int] != needle@[i as int]);
            return false;
        }
        i = i + 1;
    }
    assert(hay@.subrange(0, nn as int) =~= needle@);
    true
}

/// Whether `hay` ends with `needle`.
pub fn ends_with(hay: &str, needle: &str) -> (r: bool)
    ensures
        r == ends_with_seq(hay@, needle@),
{
    let hn = hay.unicode_len();
    let nn = needle.unicode_len();
    if hn < nn {
        return false;
    }
    let off = hn - nn;
    let mut i: usize = 0;
    while i < nn
        invariant
            hn == hay@.len(),
            nn == needle@.len(),
            nn <= hn,
            off == hn - nn,
            0 <= i <= nn,
            forall|j: int| 0 <= j < i ==> hay@[off + j] == needle@[j],
        decreases nn - i,
    {
        if hay.get_char(off + i) != needle.get_char(i) {
            assert(hay@.subrange(off as int, hn as int)[i as int] != needle@[i as int]);
            return false;
        }
        i = i + 1;
    }
    assert(hay@.subrange(off as int, hn as int) =~= needle@);
    true
}

/// Whether `needle` occurs anywhere in `hay`.
pub fn contains_str(hay: &str, needle: &str) -> (r: bool)
    ensures
        r == contains_seq(hay@, needle@),
{
    let hn = hay.unicode_len();
    let nn = needle.unicode_len();
    if nn > hn {
        return false;
    }
    let mut start: usize = 0;
    while start <= hn - nn
        invariant
            hn == hay@.len(),
            nn == needle@.len(),
            nn <= hn,
            0 <= start <= hn - nn + 1,
            forall|k: int|
                0 <= k < start ==> #[trigger] hay@.subrange(k, k + nn) != needle@,
        decreases hn - nn - start + 1,
    {
        let mut i: usize = 0;
        let mut matches = true;
        while i < nn
            invariant
                hn == hay@.len(),
                nn == needle@.len(),
                nn <= hn,
                0 <= start <= hn - nn,
                0 <= i <= nn,
                matches == (forall|j: int| 0 <= j < i ==> hay@[start + j] == needle@[j]),
            decreases nn - i,
        {
            if hay.get_char(start + i) != needle.get_char(i) {
                assert(hay@[start + i] != needle@[i as int]);
                matches = false;
                i = nn;
            } else {
                i = i + 1;
            }
        }
        if matches {
            assert(hay@.subrange(start as int, start + nn) =~= needle@);
            return true;
        }
        assert(hay@.subrange(start as int, start + nn) != needle@) by {
            assert(exists|j: int| 0 <= j < nn && hay@[start + j] != needle@[j]);
            let j = choose|j: int| 0 <= j < nn && hay@[start + j] != needle@[j];
            assert(hay@.subrange(start as int, start + nn)[j] == hay@[start + j]);
        }
        start = start + 1;
    }
    assert(forall|k: int|
        0 <= k <= hn - nn ==> #[trigger] hay@.subrange(k, k + nn) != needle@);
    false
}

/// An ASCII decimal digit.
pub open spec fn is_digit_char(c: char) -> bool {
    '0' <= c && c <= '9'
}

/// Numeric value of a decimal digit character.
pub open spec fn digit_val(c: char) -> int {
    (c as u32) - 48
}

/// The decimal digit character for `d` in `0..=9`.
pub open spec fn digit_char(d: int) -> char {
    ((48 + d) as u32) as char
}

/// Value of a digit sequence read as a decimal numeral.
pub open spec fn digits_val(s: Seq<char>) -> int
    decreases s.len(),
{
    if s.len() == 0 {
        0
    } else {
        digits_val(s.drop_last()) * 10 + digit_val(s.last())
    }
}

/// The canonical decimal numeral of a non-negative integer.
pub open spec fn dec_seq(n: int) -> Seq<char>
    decreases n,
{
    if n < 10 {
        seq![digit_char(if n < 0 {
            0
        } else {
            n
        })]
    } else {
        dec_seq(n / 10).push(digit_char(n % 10))
    }
}

/// Parsing a digit string succeeds exactly on non-empty all-digit input
/// whose value fits in `u64`.
pub open spec fn spec_parse_u64(s: Seq<char>) -> Option<u64> {
    if s.len() > 0 && (forall|i: int| 0 <= i < s.len() ==> is_digit_char(s[i])) && digits_val(s)
        <= u64::MAX {
        Some(digits_val(s) as u64)
    } else {
        None
    }
}

proof fn lemma_digits_val_nonneg(s: Seq<char>)
    requires
        forall|i: int| 0 <= i < s.len() ==> is_digit_char(s[i]),
    ensures
        digits_val(s) >= 0,
    decreases s.len(),
{
    if s.len() > 0 {
        lemma_digits_val_nonneg(s.drop_last());
    }
}

/// Extending a digit prefix never lowers its value.
proof fn lemma_digits_val_prefix(s: Seq<char>, i: int)
    requires
        forall|k: int| 0 <= k < s.len() ==> is_digit_char(s[k]),
        0 <= i <= s.len(),
    ensures
        digits_val(s) >= digits_val(s.subrange(0, i)),
    decreases s.len() - i,
{
    if i < s.len() {
        lemma_digits_val_prefix(s, i + 1);
        let p = s.subrange(0, i + 1);
        assert(p.drop_last() =~= s.subrange(0, i));
        lemma_digits_val_nonneg(s.subrange(0, i));
        assert(digits_val(p) == digits_val(s.subrange(0, i)) * 10 + digit_val(p.last()));
        assert(digits_val(s.subrange(0, i)) * 10 >= digits_val(s.subrange(0, i))) by (nonlinear_arith)
            requires
                digits_val(s.subrange(0, i)) >= 0,
        ;
    } else {
        assert(s.subrange(0, s.len() as int) =~= s);
    }
}

/// Parse a non-empty string of decimal digits as a `u64`.
pub fn parse_u64(s: &str) -> (r: Option<u64>)
    ensures
        r == spec_parse_u64(s@),
{
    let n = s.unicode_len();
    if n == 0 {
        return None;
    }
    let mut acc: u64 = 0;
    let mut i: usize = 0;
    while i < n
        invariant
            n == s@.len(),
            0 < n,
            0 <= i <= n,
            forall|k: int| 0 <= k < i ==> is_digit_char(s@[k]),
            acc == digits_val(s@.subrange(0, i as int)),
        decreases n - i,
    {
        let c = s.get_char(i);
        if !('0' <= c && c <= '9') {
            return None;
        }
        let d: u64 = ((c as u32) - 48) as u64;
        if acc > (u64::MAX - d) / 10 {
            proof {
                let p = s@.subrange(0, i + 1);
                assert(p.drop_last() =~= s@.subrange(0, i as int));
                assert(acc * 10 + d > u64::MAX) by (nonlinear_arith)
                    requires
                        acc > (u64::MAX - d) / 10,
                        0 <= d <= 9,
                        acc >= 0,
                ;
                assert(digits_val(p) == acc * 10 + d);
                assert forall|k: int| 0 <= k < p.len() implies is_digit_char(p[k]) by {
                    if k < i {
                        assert(p[k] == s@[k]);
                    }
                }
                if forall|k: int| 0 <= k < s@.len() ==> is_digit_char(s@[k]) {
                    lemma_digits_val_prefix(s@, i + 1);
                }
            }
            return None;
        }
        acc = acc * 10 + d;
        proof {
            let p = s@.subrange(0, i + 1);
            assert(p.drop_last() =~= s@.subrange(0, i as int));
            assert(digits_val(p) == digits_val(s@.subrange(0, i as int)) * 10 + digit_val(p.last()));
        }
        i = i + 1;
    }
    proof {
        assert(s@.subrange(0, n as int) =~= s@);
    }
    Some(acc)
}

/// Render a `u64` as its decimal numeral.
pub fn u64_to_string(n: u64) -> (r: String)
    ensures
        r@ == dec_seq(n as int),
{
    let mut digits: Vec<char> = Vec::new();
    let mut m: u64 = n;
    loop
        invariant_except_break
            digits@.len() == 0 ==> m == n,
            digits@.len() > 0 ==> m > 0 && dec_seq(n as int) == dec_seq(m as int)
                + digits@.reverse(),
        ensures
            dec_seq(n as int) == digits@.reverse(),
        decreases m,
    {
        let ghost m0: int = m as int;
        let ghost digits0 = digits@;
        let d: u8 = (m % 10) as u8;
        let c: char = ((48 + d as u32) as u8) as char;
        digits.push(c);
        m = m / 10;
        proof {
            assert(c == digit_char(m0 % 10));
            assert(digits@.reverse() =~= seq![c] + digits0.reverse());
            if digits0.len() == 0 {
                if m0 < 10 {
                    assert(dec_seq(n as int) =~= digits@.reverse());
                } else {
                    assert(dec_seq(n as int) =~= dec_seq(m0 / 10) + digits@.reverse());
                }
            } else {
                if m0 < 10 {
                    assert(dec_seq(m0) == seq![digit_char(m0)]);
                    assert(dec_seq(n as int) =~= digits@.reverse());
                } else {
                    assert(dec_seq(m0) == dec_seq(m0 / 10).push(digit_char(m0 % 10)));
                    assert(dec_seq(n as int) =~= dec_seq(m0 / 10) + digits@.reverse());
                }
            }
        }
        if m == 0 {
            break;
        }
    }
    let mut out = String::new();
    let mut j: usize = digits.len();
    while j > 0
        invariant
            0 <= j <= digits@.len(),
            out@ =~= digits@.reverse().subrange(0, digits@.len() - j),
        decreases j,
    {
        proof {
            assert(digits@.reverse()[digits@.len() - j] == digits@[j - 1]);
        }
        out.append(char_to_str(digits[j - 1]).as_str());
        j = j - 1;
        proof {
            assert(out@ =~= digits@.reverse().subrange(0, digits@.len() - j));
        }
    }
    proof {
        assert(digits@.reverse().subrange(0, digits@.len() as int) =~= digits@.reverse());
    }
    out
}

} // verus!
