//! Characters and strings: the few operations the name-reading code needs,
//! each with the meaning Rust's own `str` methods give it.
use vstd::prelude::*;

verus! {

/// `c` is white space in the Unicode sense, as `char::is_whitespace` has it.
pub open spec fn is_space(c: char) -> bool {
    let u = c as u32;
    ||| (9 <= u && u <= 13)
    ||| u == 32
    ||| u == 0x85
    ||| u == 0xA0
    ||| u == 0x1680
    ||| (0x2000 <= u && u <= 0x200A)
    ||| u == 0x2028
    ||| u == 0x2029
    ||| u == 0x202F
    ||| u == 0x205F
    ||| u == 0x3000
}

/// `c` is an ASCII decimal digit.
pub open spec fn is_digit(c: char) -> bool {
    '0' <= c && c <= '9'
}

/// `c` is an ASCII letter or digit.
pub open spec fn is_alnum(c: char) -> bool {
    is_digit(c) || ('a' <= c && c <= 'z') || ('A' <= c && c <= 'Z')
}

/// `c` with an ASCII capital letter folded to lower case.
pub open spec fn lower(c: char) -> char {
    if 'A' <= c && c <= 'Z' {
        ((c as u32) + 32) as char
    } else {
        c
    }
}

/// Every character of `s` folded by [`lower`].
pub open spec fn lower_all(s: Seq<char>) -> Seq<char> {
    s.map_values(|c: char| lower(c))
}

/// Every character of `s` is an ASCII digit (true of the empty string).
pub open spec fn all_digits(s: Seq<char>) -> bool {
    forall|i: int| 0 <= i < s.len() ==> is_digit(s[i])
}

/// `s` without its leading white space.
pub open spec fn trim_start(s: Seq<char>) -> Seq<char>
    decreases s.len(),
{
    if s.len() > 0 && is_space(s[0]) {
        trim_start(s.drop_first())
    } else {
        s
    }
}

/// `s` without its trailing white space.
pub open spec fn trim_end(s: Seq<char>) -> Seq<char>
    decreases s.len(),
{
    if s.len() > 0 && is_space(s.last()) {
        trim_end(s.drop_last())
    } else {
        s
    }
}

/// `s` without leading or trailing white space.
pub open spec fn trim(s: Seq<char>) -> Seq<char> {
    trim_end(trim_start(s))
}

/// `s` without any trailing `c`.
pub open spec fn trim_end_char(s: Seq<char>, c: char) -> Seq<char>
    decreases s.len(),
{
    if s.len() > 0 && s.last() == c {
        trim_end_char(s.drop_last(), c)
    } else {
        s
    }
}

/// `s` starts with `prefix`.
pub open spec fn starts_with(s: Seq<char>, prefix: Seq<char>) -> bool {
    prefix.len() <= s.len() && s.subrange(0, prefix.len() as int) == prefix
}

/// `s` ends with `suffix`.
pub open spec fn ends_with(s: Seq<char>, suffix: Seq<char>) -> bool {
    suffix.len() <= s.len() && s.subrange(s.len() - suffix.len(), s.len() as int) == suffix
}

/// `s` contains the character `c`.
pub open spec fn has_char(s: Seq<char>, c: char) -> bool {
    exists|i: int| 0 <= i < s.len() && s[i] == c
}

/// The first position at or after `from` where `pattern` starts in `s`.
pub open spec fn find_from(s: Seq<char>, pattern: Seq<char>, from: int) -> Option<int>
    decreases s.len() - from,
{
    if from < 0 || from + pattern.len() > s.len() {
        None
    } else if s.subrange(from, from + pattern.len()) == pattern {
        Some(from)
    } else if from >= s.len() {
        None
    } else {
        find_from(s, pattern, from + 1)
    }
}

/// The last position of `c` in `s[..n]`.
pub open spec fn last_index_of(s: Seq<char>, c: char, n: int) -> Option<int>
    decreases n,
{
    if n <= 0 {
        None
    } else if s[n - 1] == c {
        Some(n - 1)
    } else {
        last_index_of(s, c, n - 1)
    }
}

/// The number of bytes `s` takes in UTF-8.
pub open spec fn utf8_len(s: Seq<char>) -> int {
    vstd::utf8::encode_utf8(s).len() as int
}

/// `s` cut at every `separator`, as `str::split` cuts it: always at least one
/// piece, and empty pieces kept.
pub open spec fn split_on<T>(s: Seq<T>, separator: T) -> Seq<Seq<T>>
    decreases s.len(),
{
    if s.len() == 0 {
        seq![Seq::empty()]
    } else {
        let pieces = split_on(s.drop_last(), separator);
        if s.last() == separator {
            pieces.push(Seq::empty())
        } else {
            pieces.update(pieces.len() - 1, pieces.last().push(s.last()))
        }
    }
}

pub fn is_space_char(c: char) -> (answer: bool)
    ensures
        answer == is_space(c),
{
    let u = c as u32;
    (9 <= u && u <= 13) || u == 32 || u == 0x85 || u == 0xA0 || u == 0x1680 || (0x2000 <= u && u
        <= 0x200A) || u == 0x2028 || u == 0x2029 || u == 0x202F || u == 0x205F || u == 0x3000
}

pub fn is_digit_char(c: char) -> (answer: bool)
    ensures
        answer == is_digit(c),
{
    '0' <= c && c <= '9'
}

pub fn is_alnum_char(c: char) -> (answer: bool)
    ensures
        answer == is_alnum(c),
{
    ('0' <= c && c <= '9') || ('a' <= c && c <= 'z') || ('A' <= c && c <= 'Z')
}

pub fn lower_char(c: char) -> (folded: char)
    ensures
        folded == lower(c),
{
    if 'A' <= c && c <= 'Z' {
        let code = c as u8;
        assert(code as u32 == c as u32);
        (code + 32) as char
    } else {
        c
    }
}

/// Append one character to a string.
#[verifier::external_body]
fn push_char(text: &mut String, c: char)
    ensures
        final(text)@ == old(text)@.push(c),
{
    text.push(c);
}

/// The characters of `s`, one by one.
pub fn chars_of(s: &str) -> (chars: Vec<char>)
    ensures
        chars@ == s@,
{
    let n = s.unicode_len();
    let mut chars: Vec<char> = Vec::new();
    let mut i: usize = 0;
    while i < n
        invariant
            i <= n,
            n == s@.len(),
            chars@ == s@.subrange(0, i as int),
        decreases n - i,
    {
        chars.push(s.get_char(i));
        assert(s@.subrange(0, i + 1) =~= s@.subrange(0, i as int).push(s@[i as int]));
        i = i + 1;
    }
    assert(s@.subrange(0, n as int) =~= s@);
    chars
}

/// A string holding exactly `chars`.
pub fn string_of(chars: &[char]) -> (text: String)
    ensures
        text@ == chars@,
{
    let mut text = String::new();
    let mut i: usize = 0;
    while i < chars.len()
        invariant
            i <= chars@.len(),
            text@ == chars@.subrange(0, i as int),
        decreases chars.len() - i,
    {
        push_char(&mut text, chars[i]);
        assert(chars@.subrange(0, i + 1) =~= chars@.subrange(0, i as int).push(chars@[i as int]));
        i = i + 1;
    }
    assert(chars@.subrange(0, chars@.len() as int) =~= chars@);
    text
}

/// `chars[from..to]` as a new vector.
pub fn slice_of(chars: &[char], from: usize, to: usize) -> (piece: Vec<char>)
    requires
        from <= to <= chars@.len(),
    ensures
        piece@ == chars@.subrange(from as int, to as int),
{
    let mut piece: Vec<char> = Vec::new();
    let mut i = from;
    while i < to
        invariant
            from <= i <= to,
            to <= chars@.len(),
            piece@ == chars@.subrange(from as int, i as int),
        decreases to - i,
    {
        piece.push(chars[i]);
        assert(chars@.subrange(from as int, i + 1) =~= chars@.subrange(from as int, i as int).push(
            chars@[i as int],
        ));
        i = i + 1;
    }
    piece
}

proof fn lemma_trim_start_suffix(s: Seq<char>)
    ensures
        exists|k: int| 0 <= k <= s.len() && trim_start(s) == s.subrange(k, s.len() as int),
    decreases s.len(),
{
    if s.len() > 0 && is_space(s[0]) {
        lemma_trim_start_suffix(s.drop_first());
        let k = choose|k: int|
            0 <= k <= s.drop_first().len() && trim_start(s.drop_first())
                == s.drop_first().subrange(k, s.drop_first().len() as int);
        assert(s.drop_first().subrange(k, s.drop_first().len() as int) =~= s.subrange(
            k + 1,
            s.len() as int,
        ));
    } else {
        assert(s.subrange(0, s.len() as int) =~= s);
    }
}

/// Where the leading white space of `s[from..to]` ends.
proof fn lemma_trim_start_step(s: Seq<char>, from: int, to: int)
    requires
        0 <= from < to <= s.len(),
        is_space(s[from]),
    ensures
        trim_start(s.subrange(from, to)) == trim_start(s.subrange(from + 1, to)),
{
    assert(s.subrange(from, to).drop_first() =~= s.subrange(from + 1, to));
}

proof fn lemma_trim_end_step(s: Seq<char>, from: int, to: int)
    requires
        0 <= from < to <= s.len(),
        is_space(s[to - 1]),
    ensures
        trim_end(s.subrange(from, to)) == trim_end(s.subrange(from, to - 1)),
{
    assert(s.subrange(from, to).drop_last() =~= s.subrange(from, to - 1));
}

/// `s` without leading or trailing white space.
pub fn trim_chars(s: &[char]) -> (trimmed: Vec<char>)
    ensures
        trimmed@ == trim(s@),
{
    let mut from: usize = 0;
    assert(s@.subrange(0, s@.len() as int) =~= s@);
    while from < s.len() && is_space_char(s[from])
        invariant
            from <= s@.len(),
            trim_start(s@) == trim_start(s@.subrange(from as int, s@.len() as int)),
        decreases s.len() - from,
    {
        proof {
            lemma_trim_start_step(s@, from as int, s@.len() as int);
        }
        from = from + 1;
    }
    assert(trim_start(s@) == s@.subrange(from as int, s@.len() as int)) by {
        let rest = s@.subrange(from as int, s@.len() as int);
        if rest.len() > 0 {
            assert(rest[0] == s@[from as int]);
        }
    }
    let mut to: usize = s.len();
    while to > from && is_space_char(s[to - 1])
        invariant
            from <= to <= s@.len(),
            trim(s@) == trim_end(s@.subrange(from as int, to as int)),
        decreases to,
    {
        proof {
            lemma_trim_end_step(s@, from as int, to as int);
        }
        to = to - 1;
    }
    assert(trim(s@) == s@.subrange(from as int, to as int)) by {
        let rest = s@.subrange(from as int, to as int);
        if rest.len() > 0 {
            assert(rest.last() == s@[to - 1]);
        }
    }
    slice_of(s, from, to)
}

/// `s` without any trailing `c`.
pub fn trim_end_matching(s: &[char], c: char) -> (trimmed: Vec<char>)
    ensures
        trimmed@ == trim_end_char(s@, c),
{
    let mut to: usize = s.len();
    assert(s@.subrange(0, s@.len() as int) =~= s@);
    while to > 0 && s[to - 1] == c
        invariant
            to <= s@.len(),
            trim_end_char(s@, c) == trim_end_char(s@.subrange(0, to as int), c),
        decreases to,
    {
        assert(s@.subrange(0, to as int).drop_last() =~= s@.subrange(0, to - 1));
        to = to - 1;
    }
    assert(trim_end_char(s@, c) == s@.subrange(0, to as int)) by {
        let rest = s@.subrange(0, to as int);
        if rest.len() > 0 {
            assert(rest.last() == s@[to - 1]);
        }
    }
    slice_of(s, 0, to)
}

/// Whether `pattern` starts at `at` in `s`.
pub fn starts_at(s: &[char], pattern: &[char], at: usize) -> (found: bool)
    requires
        at <= s@.len(),
    ensures
        found == (at + pattern@.len() <= s@.len() && s@.subrange(
            at as int,
            at + pattern@.len(),
        ) == pattern@),
{
    if pattern.len() > s.len() - at {
        return false;
    }
    let s_len = s.len();
    let mut k: usize = 0;
    while k < pattern.len()
        invariant
            k <= pattern@.len(),
            s_len == s@.len(),
            at + pattern@.len() <= s@.len(),
            forall|j: int| 0 <= j < k ==> s@[at + j] == pattern@[j],
        decreases pattern.len() - k,
    {
        if s[at + k] != pattern[k] {
            assert(s@.subrange(at as int, at + pattern@.len())[k as int] != pattern@[k as int]);
            return false;
        }
        k = k + 1;
    }
    assert(s@.subrange(at as int, at + pattern@.len()) =~= pattern@);
    true
}

/// The first position of `pattern` in `s`.
pub fn find(s: &[char], pattern: &[char]) -> (found: Option<usize>)
    requires
        pattern@.len() > 0,
    ensures
        match found {
            Some(at) => find_from(s@, pattern@, 0) == Some(at as int),
            None => find_from(s@, pattern@, 0) == None::<int>,
        },
{
    let mut at: usize = 0;
    while at < s.len() && !starts_at(s, pattern, at)
        invariant
            at <= s@.len(),
            find_from(s@, pattern@, at as int) == find_from(s@, pattern@, 0),
        decreases s.len() - at,
    {
        at = at + 1;
    }
    if at < s.len() {
        Some(at)
    } else {
        None
    }
}

/// The last position of `c` in `s`.
pub fn rfind_char(s: &[char], c: char) -> (found: Option<usize>)
    ensures
        match found {
            Some(at) => last_index_of(s@, c, s@.len() as int) == Some(at as int),
            None => last_index_of(s@, c, s@.len() as int) == None::<int>,
        },
{
    let mut n: usize = s.len();
    while n > 0 && s[n - 1] != c
        invariant
            n <= s@.len(),
            last_index_of(s@, c, n as int) == last_index_of(s@, c, s@.len() as int),
        decreases n,
    {
        n = n - 1;
    }
    if n > 0 {
        Some(n - 1)
    } else {
        None
    }
}

/// Whether every character of `s` is an ASCII digit.
pub fn all_digit_chars(s: &[char]) -> (answer: bool)
    ensures
        answer == all_digits(s@),
{
    let mut i: usize = 0;
    while i < s.len()
        invariant
            i <= s@.len(),
            forall|j: int| 0 <= j < i ==> is_digit(s@[j]),
        decreases s.len() - i,
    {
        if !is_digit_char(s[i]) {
            return false;
        }
        i = i + 1;
    }
    true
}

/// Every character of `s` folded to ASCII lower case.
pub fn lower_chars(s: &[char]) -> (folded: Vec<char>)
    ensures
        folded@ == lower_all(s@),
{
    let mut folded: Vec<char> = Vec::new();
    let mut i: usize = 0;
    while i < s.len()
        invariant
            i <= s@.len(),
            folded@ == lower_all(s@.subrange(0, i as int)),
        decreases s.len() - i,
    {
        folded.push(lower_char(s[i]));
        assert(lower_all(s@.subrange(0, i + 1)) =~= lower_all(s@.subrange(0, i as int)).push(
            lower(s@[i as int]),
        ));
        i = i + 1;
    }
    assert(s@.subrange(0, s@.len() as int) =~= s@);
    folded
}

/// Cutting `s[..i]`, where `s[start..i]` holds no separator and `start`
/// begins a piece, ends in the pieces before `start` followed by
/// `s[start..i]`.
pub proof fn lemma_split_extend<T>(s: Seq<T>, separator: T, start: int, i: int)
    requires
        0 <= start <= i <= s.len(),
        start == 0 || s[start - 1] == separator,
        forall|k: int| start <= k < i ==> s[k] != separator,
    ensures
        split_on(s.subrange(0, i), separator) == split_on(s.subrange(0, start), separator).drop_last().push(
            s.subrange(start, i),
        ),
        split_on(s.subrange(0, start), separator).len() > 0,
    decreases i - start,
{
    lemma_split_nonempty(s.subrange(0, start), separator);
    if i == start {
        if start == 0 {
            assert(s.subrange(0, 0) =~= Seq::<T>::empty());
            assert(split_on(Seq::<T>::empty(), separator) =~= seq![Seq::<T>::empty()]);
        } else {
            let before = s.subrange(0, start);
            assert(before.drop_last() =~= s.subrange(0, start - 1));
            assert(before.last() == separator);
        }
        assert(s.subrange(start, start) =~= Seq::<T>::empty());
        assert(split_on(s.subrange(0, start), separator) =~= split_on(
            s.subrange(0, start),
            separator,
        ).drop_last().push(Seq::<T>::empty())) by {
            if start > 0 {
                let before = s.subrange(0, start);
                assert(before.drop_last() =~= s.subrange(0, start - 1));
            }
        }
    } else {
        lemma_split_extend(s, separator, start, i - 1);
        let prefix = s.subrange(0, i);
        assert(prefix.drop_last() =~= s.subrange(0, i - 1));
        assert(prefix.last() == s[i - 1]);
        assert(s.subrange(start, i) =~= s.subrange(start, i - 1).push(s[i - 1]));
        assert(split_on(prefix, separator) =~= split_on(s.subrange(0, start), separator).drop_last().push(
            s.subrange(start, i),
        ));
    }
}

/// Cutting always yields at least one piece.
pub proof fn lemma_split_nonempty<T>(s: Seq<T>, separator: T)
    ensures
        split_on(s, separator).len() > 0,
    decreases s.len(),
{
    if s.len() > 0 {
        lemma_split_nonempty(s.drop_last(), separator);
    }
}

/// The views of a sequence of character vectors.
pub open spec fn char_views(pieces: Seq<Vec<char>>) -> Seq<Seq<char>> {
    pieces.map_values(|piece: Vec<char>| piece@)
}

/// `s` cut at every `separator`, as `str::split` cuts it.
pub fn split_chars(s: &[char], separator: char) -> (pieces: Vec<Vec<char>>)
    ensures
        char_views(pieces@) == split_on(s@, separator),
{
    let mut pieces: Vec<Vec<char>> = Vec::new();
    let mut start: usize = 0;
    let mut i: usize = 0;
    assert(char_views(pieces@) =~= split_on(s@.subrange(0, 0), separator).drop_last()) by {
        assert(s@.subrange(0, 0) =~= Seq::<char>::empty());
        assert(split_on(Seq::<char>::empty(), separator) =~= seq![Seq::<char>::empty()]);
    }
    while i < s.len()
        invariant
            start <= i <= s@.len(),
            start == 0 || s@[start - 1] == separator,
            forall|k: int| start <= k < i ==> s@[k] != separator,
            char_views(pieces@) == split_on(s@.subrange(0, start as int), separator).drop_last(),
        decreases s.len() - i,
    {
        if s[i] == separator {
            let piece = slice_of(s, start, i);
            let ghost done = split_on(s@.subrange(0, start as int), separator).drop_last();
            proof {
                lemma_split_extend(s@, separator, start as int, i as int);
                let upto = s@.subrange(0, i + 1);
                assert(upto.drop_last() =~= s@.subrange(0, i as int));
                assert(split_on(upto, separator).drop_last() =~= done.push(piece@));
            }
            let ghost before = pieces@;
            pieces.push(piece);
            assert(char_views(pieces@) =~= char_views(before).push(piece@));
            start = i + 1;
        }
        i = i + 1;
    }
    let piece = slice_of(s, start, s.len());
    let ghost done = split_on(s@.subrange(0, start as int), separator).drop_last();
    proof {
        lemma_split_extend(s@, separator, start as int, s@.len() as int);
        assert(s@.subrange(0, s@.len() as int) =~= s@);
    }
    let ghost before = pieces@;
    pieces.push(piece);
    assert(char_views(pieces@) =~= char_views(before).push(piece@));
    pieces
}

/// Append the characters of `piece`.
pub fn push_str(out: &mut Vec<char>, piece: &str)
    ensures
        final(out)@ == old(out)@ + piece@,
{
    let chars = chars_of(piece);
    push_chars(out, &chars);
}

/// Append `piece`.
pub fn push_chars(out: &mut Vec<char>, piece: &Vec<char>)
    ensures
        final(out)@ == old(out)@ + piece@,
{
    let mut i: usize = 0;
    while i < piece.len()
        invariant
            i <= piece@.len(),
            out@ == old(out)@ + piece@.subrange(0, i as int),
        decreases piece.len() - i,
    {
        out.push(piece[i]);
        assert(piece@.subrange(0, i + 1) =~= piece@.subrange(0, i as int).push(piece@[i as int]));
        i = i + 1;
    }
    assert(piece@.subrange(0, piece@.len() as int) =~= piece@);
}

/// The number of bytes `text` takes in UTF-8.
pub fn byte_len(text: &str) -> (len: usize)
    ensures
        len == utf8_len(text@),
{
    text.as_bytes().len()
}

/// `std::str::from_utf8`: the text `bytes` spell when they are valid UTF-8
/// (vstd's `valid_utf8` and `decode_utf8` state the standard), and `None`
/// where the function returns `Err`, which it does exactly when they are not.
#[verifier::external_body]
pub fn utf8_text(bytes: &[u8]) -> (text: Option<&str>)
    ensures
        match text {
            Some(text) => vstd::utf8::valid_utf8(bytes@) && text@ == vstd::utf8::decode_utf8(
                bytes@,
            ),
            None => !vstd::utf8::valid_utf8(bytes@),
        },
{
    std::str::from_utf8(bytes).ok()
}

/// Whether `a` and `b` hold the same characters.
pub fn same_chars(a: &Vec<char>, b: &Vec<char>) -> (same: bool)
    ensures
        same == (a@ == b@),
{
    if a.len() != b.len() {
        return false;
    }
    let mut i: usize = 0;
    while i < a.len()
        invariant
            i <= a@.len() == b@.len(),
            forall|j: int| 0 <= j < i ==> a@[j] == b@[j],
        decreases a.len() - i,
    {
        if a[i] != b[i] {
            return false;
        }
        i = i + 1;
    }
    assert(a@ =~= b@);
    true
}

/// Whether `text` is among `list`.
pub fn contains_chars(list: &Vec<Vec<char>>, text: &Vec<char>) -> (found: bool)
    ensures
        found == char_views(list@).contains(text@),
{
    let ghost views = char_views(list@);
    let mut i: usize = 0;
    while i < list.len()
        invariant
            i <= list@.len(),
            views == char_views(list@),
            forall|j: int| 0 <= j < i ==> views[j] != text@,
        decreases list.len() - i,
    {
        if same_chars(&list[i], text) {
            assert(views[i as int] == text@);
            return true;
        }
        i = i + 1;
    }
    false
}

/// The items of `items` that `other` does not hold, in order.
pub open spec fn absent_from(items: Seq<Seq<char>>, other: Seq<Seq<char>>) -> Seq<Seq<char>>
    decreases items.len(),
{
    if items.len() == 0 {
        Seq::empty()
    } else {
        let before = absent_from(items.drop_last(), other);
        if other.contains(items.last()) {
            before
        } else {
            before.push(items.last())
        }
    }
}

/// How many different items `items` holds.
pub open spec fn distinct_count(items: Seq<Seq<char>>) -> int
    decreases items.len(),
{
    if items.len() == 0 {
        0
    } else {
        distinct_count(items.drop_last()) + if items.drop_last().contains(items.last()) {
            0int
        } else {
            1int
        }
    }
}

/// Cutting at every separator distributes over a join just after a
/// separator: the piece that `a` leaves open is empty, and `b`'s pieces
/// follow.
pub proof fn lemma_split_join<T>(a: Seq<T>, b: Seq<T>, separator: T)
    requires
        a.len() > 0,
        a.last() == separator,
    ensures
        split_on(a + b, separator) == split_on(a, separator).drop_last() + split_on(b, separator),
    decreases b.len(),
{
    if b.len() == 0 {
        assert(a + b =~= a);
        assert(split_on(a, separator) == split_on(a.drop_last(), separator).push(Seq::empty()));
        assert(split_on(b, separator) =~= seq![Seq::<T>::empty()]);
        assert(split_on(a, separator).drop_last() + split_on(b, separator) =~= split_on(a, separator));
    } else {
        let joined = a + b;
        let shorter = b.drop_last();
        lemma_split_join(a, shorter, separator);
        assert(joined.drop_last() =~= a + shorter);
        assert(joined.last() == b.last());
        let front = split_on(a, separator).drop_last();
        let rest = split_on(shorter, separator);
        lemma_split_nonempty(shorter, separator);
        if b.last() == separator {
            assert(split_on(joined, separator) =~= (front + rest).push(Seq::empty()));
            assert((front + rest).push(Seq::empty()) =~= front + rest.push(Seq::empty()));
        } else {
            let whole = front + rest;
            assert(split_on(joined, separator) == whole.update(
                whole.len() - 1,
                whole.last().push(b.last()),
            ));
            assert(whole.last() == rest.last());
            assert(whole.update(whole.len() - 1, whole.last().push(b.last())) =~= front + rest.update(
                rest.len() - 1,
                rest.last().push(b.last()),
            ));
        }
    }
}

/// Text with no separator in it is one piece.
pub proof fn lemma_split_whole<T>(s: Seq<T>, separator: T)
    requires
        forall|i: int| 0 <= i < s.len() ==> s[i] != separator,
    ensures
        split_on(s, separator) == seq![s],
    decreases s.len(),
{
    if s.len() == 0 {
        assert(s =~= Seq::<T>::empty());
        assert(split_on(s, separator) =~= seq![s]);
    } else {
        assert(s[s.len() - 1] != separator);
        assert forall|i: int| 0 <= i < s.drop_last().len() implies s.drop_last()[i] != separator by {
            assert(s.drop_last()[i] == s[i]);
        }
        lemma_split_whole(s.drop_last(), separator);
        assert(s.drop_last().push(s.last()) =~= s);
        let pieces = split_on(s.drop_last(), separator);
        assert(split_on(s, separator) == pieces.update(0, pieces[0].push(s.last())));
        assert(split_on(s, separator) =~= seq![s]);
    }
}

} // verus!
