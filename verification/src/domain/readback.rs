//! Reading back what was written: the names Cairn's hosts lines carry are
//! found again, in order, by the same reading that verification uses.
use vstd::prelude::*;
use vstd::utf8::{decode_utf8, encode_utf8, encode_utf8_decode_utf8, encode_utf8_valid_utf8, is_ascii_chars, is_ascii_chars_encode_utf8, valid_utf8};
use crate::domain::entries::{
    eol_bytes, host_line_pair, hosts_body, line_text, mode_addresses, name_on_line, names_in_body,
    names_on_lines, words, LineEnding, ReachMode,
};
use crate::domain::normalize::{lemma_shape_chars, name_char, shape_outcome};
use crate::domain::splice::{begin_marker_spec, end_marker_spec, free_of_markers, matches_at, region_with};
use crate::text::{is_space, lemma_split_join, lemma_split_whole, split_on, trim, trim_end, trim_start};

verus! {

/// A name that can be written on a hosts line and read back: not empty, no
/// white space, ASCII only (as every normalized domain is).
pub open spec fn writable_name(name: Seq<char>) -> bool {
    &&& name.len() > 0
    &&& forall|i: int| 0 <= i < name.len() ==> !is_space(#[trigger] name[i])
    &&& is_ascii_chars(name)
}

/// Each name twice, in order: one IPv4 line and one IPv6 line apiece.
pub open spec fn doubled(names: Seq<Seq<char>>) -> Seq<Seq<char>>
    decreases names.len(),
{
    if names.len() == 0 {
        Seq::empty()
    } else {
        doubled(names.drop_last()).push(names.last()).push(names.last())
    }
}

/// The names on joined lines are the names on each part, in order.
proof fn lemma_names_join(first: Seq<Seq<u8>>, second: Seq<Seq<u8>>)
    ensures
        names_on_lines(first + second) == names_on_lines(first) + names_on_lines(second),
    decreases second.len(),
{
    if second.len() == 0 {
        assert(first + second =~= first);
        assert(names_on_lines(first) + names_on_lines(second) =~= names_on_lines(first));
    } else {
        lemma_names_join(first, second.drop_last());
        assert((first + second).drop_last() =~= first + second.drop_last());
        assert((first + second).last() == second.last());
        match name_on_line(second.last()) {
            Some(name) => {
                assert(names_on_lines(first) + names_on_lines(second) =~= (names_on_lines(first)
                    + names_on_lines(second.drop_last())).push(name));
            },
            None => {},
        }
    }
}

/// A word that follows white space (or nothing) is a word of its own.
proof fn lemma_words_append(before: Seq<char>, word: Seq<char>)
    requires
        before.len() == 0 || is_space(before.last()),
        word.len() > 0,
        forall|i: int| 0 <= i < word.len() ==> !is_space(#[trigger] word[i]),
    ensures
        words(before + word) == words(before).push(word),
    decreases word.len(),
{
    let whole = before + word;
    assert(whole.drop_last() =~= before + word.drop_last());
    assert(whole.last() == word.last());
    assert(!is_space(word[word.len() - 1]));
    if word.len() == 1 {
        assert(word.drop_last() =~= Seq::<char>::empty());
        assert(before + word.drop_last() =~= before);
        assert(seq![word.last()] =~= word);
    } else {
        assert forall|i: int| 0 <= i < word.drop_last().len() implies !is_space(#[trigger] word.drop_last()[i]) by {
            assert(word.drop_last()[i] == word[i]);
        }
        lemma_words_append(before, word.drop_last());
        assert(whole[whole.len() - 2] == word[word.len() - 2]);
        assert(word.drop_last().push(word.last()) =~= word);
        assert(words(before).push(word.drop_last()).update(
            words(before).len() as int,
            word.drop_last().push(word.last()),
        ) =~= words(before).push(word));
        assert(word.drop_last().push(word.last()) =~= word);
    }
}

/// Trailing white space adds no word.
proof fn lemma_words_space(before: Seq<char>, c: char)
    requires
        is_space(c),
    ensures
        words(before.push(c)) == words(before),
{
    assert(before.push(c).drop_last() =~= before);
}

/// The characters of a hosts line, before its line feed.
pub open spec fn line_chars(address: Seq<char>, name: Seq<char>, ending: LineEnding) -> Seq<char> {
    let tail: Seq<char> = match ending {
        LineEnding::Lf => Seq::empty(),
        LineEnding::Crlf => seq!['\r'],
    };
    address + seq![' '] + name + tail
}

/// A hosts line reads back as the name it maps.
proof fn lemma_line_reads_back(address: Seq<char>, name: Seq<char>, ending: LineEnding)
    requires
        writable_name(address),
        writable_name(name),
        address[0] != '#',
    ensures
        name_on_line(encode_utf8(line_chars(address, name, ending))) == Some(name),
{
    let text = line_chars(address, name, ending);
    let bytes = encode_utf8(text);
    encode_utf8_valid_utf8(text);
    encode_utf8_decode_utf8(text);
    assert(line_text(bytes) == text);
    let core = address + seq![' '] + name;
    assert(!is_space(core[0])) by {
        assert(core[0] == address[0]);
    }
    assert(!is_space(core.last())) by {
        assert(core.last() == name[name.len() - 1]);
    }
    assert(trim_start(text) == text) by {
        assert(text[0] == address[0]);
    }
    assert(trim_end(core) == core);
    match ending {
        LineEnding::Lf => {
            assert(text =~= core);
        },
        LineEnding::Crlf => {
            assert(text =~= core.push('\r'));
            assert(text.drop_last() =~= core);
        },
    }
    assert(trim(text) == core);
    lemma_words_append(Seq::empty(), address);
    assert(Seq::<char>::empty() + address =~= address);
    lemma_words_space(address, ' ');
    assert(address.push(' ') =~= address + seq![' ']);
    lemma_words_append(address + seq![' '], name);
    assert(words(core) =~= seq![address, name]);
}

/// Both addresses of either mode can stand first on a hosts line.
proof fn lemma_addresses_writable(mode: ReachMode)
    ensures
        writable_name(mode_addresses(mode).0) && mode_addresses(mode).0[0] != '#',
        writable_name(mode_addresses(mode).1) && mode_addresses(mode).1[0] != '#',
{
    match mode {
        ReachMode::Counted => {
            reveal_strlit("127.0.0.1");
            reveal_strlit("::1");
        },
        ReachMode::Silent => {
            reveal_strlit("0.0.0.0");
            reveal_strlit("::");
        },
    }
}

/// The empty line names nothing.
proof fn lemma_empty_line()
    ensures
        name_on_line(Seq::<u8>::empty()) is None,
{
    encode_utf8_valid_utf8(Seq::<char>::empty());
    encode_utf8_decode_utf8(Seq::<char>::empty());
    assert(encode_utf8(Seq::<char>::empty()) =~= Seq::<u8>::empty());
}

/// Two hosts lines, each ended by a line feed, read back as their names.
proof fn lemma_two_lines(first: Seq<u8>, second: Seq<u8>, name: Seq<char>)
    requires
        forall|i: int| 0 <= i < first.len() ==> first[i] != 10,
        forall|i: int| 0 <= i < second.len() ==> second[i] != 10,
        name_on_line(first) == Some(name),
        name_on_line(second) == Some(name),
    ensures
        names_on_lines(split_on(first.push(10u8) + second.push(10u8), 10u8)) == seq![name, name],
{
    lemma_split_join(first.push(10u8), second.push(10u8), 10u8);
    lemma_split_whole(first, 10u8);
    lemma_split_whole(second, 10u8);
    assert(first.push(10u8).drop_last() =~= first);
    assert(second.push(10u8).drop_last() =~= second);
    let lines = seq![first, second, Seq::<u8>::empty()];
    assert(split_on(first.push(10u8) + second.push(10u8), 10u8) =~= lines);
    lemma_empty_line();
    let one = seq![first];
    assert(one.drop_last() =~= Seq::<Seq<u8>>::empty());
    assert(one.last() == first);
    assert(names_on_lines(Seq::<Seq<u8>>::empty()) =~= Seq::<Seq<char>>::empty());
    assert(names_on_lines(one) == names_on_lines(Seq::<Seq<u8>>::empty()).push(name));
    assert(names_on_lines(one) =~= seq![name]);
    let two = seq![first, second];
    assert(two.drop_last() =~= one);
    assert(names_on_lines(two) =~= seq![name, name]);
    assert(lines.drop_last() =~= two);
    assert(names_on_lines(lines) == names_on_lines(two));
}

/// The lines of one protected name, cut at their line feeds.
proof fn lemma_pair_reads_back(name: Seq<char>, mode: ReachMode, ending: LineEnding)
    requires
        writable_name(name),
    ensures
        names_on_lines(split_on(host_line_pair(name, mode, ending), 10u8)) == seq![name, name],
{
    lemma_addresses_writable(mode);
    let (v4, v6) = mode_addresses(mode);
    lemma_line_bytes(v4, name, ending);
    lemma_line_bytes(v6, name, ending);
    lemma_line_reads_back(v4, name, ending);
    lemma_line_reads_back(v6, name, ending);
    let first_bytes = encode_utf8(line_chars(v4, name, ending));
    let second_bytes = encode_utf8(line_chars(v6, name, ending));
    assert(host_line_pair(name, mode, ending) =~= first_bytes.push(10u8) + second_bytes.push(10u8)) by {
        match ending {
            LineEnding::Lf => {
                assert(eol_bytes(ending).drop_last() =~= Seq::<u8>::empty());
            },
            LineEnding::Crlf => {
                assert(eol_bytes(ending).drop_last() =~= seq![13u8]);
            },
        }
    }
    lemma_two_lines(first_bytes, second_bytes, name);
}

/// The bytes of a hosts line are its characters' encoding, with no line
/// feed among them.
proof fn lemma_line_bytes(address: Seq<char>, name: Seq<char>, ending: LineEnding)
    requires
        writable_name(address),
        writable_name(name),
    ensures
        encode_utf8(line_chars(address, name, ending)) == encode_utf8(address) + seq![32u8] + encode_utf8(name)
            + eol_bytes(ending).drop_last(),
        forall|i: int| 0 <= i < encode_utf8(line_chars(address, name, ending)).len()
            ==> encode_utf8(line_chars(address, name, ending))[i] != 10,
{
    let text = line_chars(address, name, ending);
    assert(is_ascii_chars(text)) by {
        assert forall|i: int| 0 <= i < text.len() implies '\0' <= #[trigger] text[i] <= '\u{7f}' by {
            if i < address.len() {
                assert(text[i] == address[i]);
            } else if i == address.len() {
            } else if i < address.len() + 1 + name.len() {
                assert(text[i] == name[i - address.len() - 1]);
            }
        }
    }
    is_ascii_chars_encode_utf8(text);
    is_ascii_chars_encode_utf8(address);
    is_ascii_chars_encode_utf8(name);
    let expected = encode_utf8(address) + seq![32u8] + encode_utf8(name) + eol_bytes(ending).drop_last();
    assert(encode_utf8(text) =~= expected) by {
        assert forall|i: int| 0 <= i < text.len() implies encode_utf8(text)[i] == expected[i] by {
            if i < address.len() {
                assert(text[i] == address[i]);
            } else if i == address.len() {
            } else if i < address.len() + 1 + name.len() {
                assert(text[i] == name[i - address.len() - 1]);
            } else {
                assert(eol_bytes(ending) =~= seq![13u8, 10u8]);
            }
        }
    }
    assert forall|i: int| 0 <= i < encode_utf8(text).len() implies encode_utf8(text)[i] != 10 by {
        assert(text[i] as u8 == encode_utf8(text)[i]);
        if i < address.len() {
            assert(text[i] == address[i]);
            assert(!is_space(address[i]));
        } else if i == address.len() {
        } else if i < address.len() + 1 + name.len() {
            assert(text[i] == name[i - address.len() - 1]);
            assert(!is_space(name[i - address.len() - 1]));
        }
    }
}

/// Every name Cairn writes into its hosts section is read back from it, each
/// twice (an IPv4 and an IPv6 line) and in the order written, in either
/// reach mode and either line ending.
pub proof fn lemma_written_names_read_back(names: Seq<Seq<char>>, mode: ReachMode, ending: LineEnding)
    requires
        forall|i: int| 0 <= i < names.len() ==> writable_name(#[trigger] names[i]),
    ensures
        names_in_body(hosts_body(names, mode, ending)) == doubled(names),
    decreases names.len(),
{
    if names.len() == 0 {
        assert(hosts_body(names, mode, ending) =~= Seq::<u8>::empty());
        assert(split_on(Seq::<u8>::empty(), 10u8) =~= seq![Seq::<u8>::empty()]);
        assert(name_on_line(Seq::<u8>::empty()) is None) by {
            encode_utf8_valid_utf8(Seq::<char>::empty());
            encode_utf8_decode_utf8(Seq::<char>::empty());
            assert(encode_utf8(Seq::<char>::empty()) =~= Seq::<u8>::empty());
        }
        assert(seq![Seq::<u8>::empty()].drop_last() =~= Seq::<Seq<u8>>::empty());
        assert(names_on_lines(seq![Seq::<u8>::empty()]) == names_on_lines(Seq::<Seq<u8>>::empty()));
        assert(doubled(names) =~= Seq::<Seq<char>>::empty());
    } else {
        let front = names.drop_last();
        let last = names.last();
        assert forall|i: int| 0 <= i < front.len() implies writable_name(#[trigger] front[i]) by {
            assert(front[i] == names[i]);
        }
        assert(writable_name(names[names.len() - 1]));
        lemma_written_names_read_back(front, mode, ending);
        let body = hosts_body(front, mode, ending);
        let pair = host_line_pair(last, mode, ending);
        assert(hosts_body(names, mode, ending) == body + pair);
        lemma_pair_reads_back(last, mode, ending);
        let pair_lines = split_on(pair, 10u8);
        if front.len() == 0 {
            assert(body =~= Seq::<u8>::empty());
            assert(body + pair =~= pair);
            assert(doubled(front) =~= Seq::<Seq<char>>::empty());
            assert(doubled(names) =~= seq![last, last]);
        } else {
            lemma_body_ends_a_line(front, mode, ending);
            lemma_split_join(body, pair, 10u8);
            let body_lines = split_on(body, 10u8);
            lemma_split_ends_empty(body);
            lemma_names_join(body_lines.drop_last(), pair_lines);
            assert(body_lines.drop_last().push(body_lines.last()) =~= body_lines);
            assert(names_on_lines(body_lines) == names_on_lines(body_lines.drop_last()));
            assert(names_in_body(hosts_body(names, mode, ending)) == names_on_lines(body_lines.drop_last()) + seq![last, last]);
            assert(doubled(names) =~= doubled(front) + seq![last, last]);
        }
    }
}

/// A nonempty body ends with a line feed.
proof fn lemma_body_ends_a_line(names: Seq<Seq<char>>, mode: ReachMode, ending: LineEnding)
    requires
        names.len() > 0,
    ensures
        hosts_body(names, mode, ending).len() > 0,
        hosts_body(names, mode, ending).last() == 10,
{
    let pair = host_line_pair(names.last(), mode, ending);
    assert(hosts_body(names, mode, ending) == hosts_body(names.drop_last(), mode, ending) + pair);
    assert(pair.last() == eol_bytes(ending).last());
}

/// Bytes that end with a line feed leave an empty last piece, and it names
/// nothing.
proof fn lemma_split_ends_empty(bytes: Seq<u8>)
    requires
        bytes.len() > 0,
        bytes.last() == 10,
    ensures
        split_on(bytes, 10u8).last() == Seq::<u8>::empty(),
        name_on_line(split_on(bytes, 10u8).last()) is None,
{
    encode_utf8_valid_utf8(Seq::<char>::empty());
    encode_utf8_decode_utf8(Seq::<char>::empty());
    assert(encode_utf8(Seq::<char>::empty()) =~= Seq::<u8>::empty());
}

/// Every name that passes the shape rules is read back from Cairn's hosts
/// lines, each twice and in order: the check after a write finds exactly
/// what was written.
pub proof fn lemma_valid_names_read_back(names: Seq<Seq<char>>, mode: ReachMode, ending: LineEnding)
    requires
        forall|i: int| 0 <= i < names.len() ==> shape_outcome(#[trigger] names[i]) is Ok,
    ensures
        names_in_body(hosts_body(names, mode, ending)) == doubled(names),
{
    assert forall|i: int| 0 <= i < names.len() implies writable_name(#[trigger] names[i]) by {
        lemma_shaped_is_writable(names[i]);
    }
    lemma_written_names_read_back(names, mode, ending);
}

/// A name that passes the shape rules can be written on a hosts line.
pub proof fn lemma_shaped_is_writable(name: Seq<char>)
    requires
        shape_outcome(name) is Ok,
    ensures
        writable_name(name),
{
    lemma_shape_chars(name);
    assert forall|j: int| 0 <= j < name.len() implies !is_space(#[trigger] name[j]) by {
        assert(name_char(name[j]));
    }
    assert(is_ascii_chars(name)) by {
        assert forall|j: int| 0 <= j < name.len() implies '\0' <= #[trigger] name[j] <= '\u{7f}' by {
            assert(name_char(name[j]));
        }
    }
}

/// The characters of bytes, one for one.
pub open spec fn ascii_chars(bytes: Seq<u8>) -> Seq<char> {
    Seq::new(bytes.len(), |i: int| bytes[i] as char)
}

/// Bytes below 128 read as their own characters.
proof fn lemma_ascii_text(bytes: Seq<u8>)
    requires
        forall|i: int| 0 <= i < bytes.len() ==> bytes[i] < 128,
    ensures
        line_text(bytes) == ascii_chars(bytes),
{
    let chars = ascii_chars(bytes);
    assert(is_ascii_chars(chars)) by {
        assert forall|i: int| 0 <= i < chars.len() implies '\0' <= #[trigger] chars[i] <= '\u{7f}' by {
            assert(chars[i] == bytes[i] as char);
        }
    }
    is_ascii_chars_encode_utf8(chars);
    assert(encode_utf8(chars) =~= bytes) by {
        assert forall|i: int| 0 <= i < bytes.len() implies encode_utf8(chars)[i] == bytes[i] by {
            assert(chars[i] as u8 == encode_utf8(chars)[i]);
            assert(chars[i] == bytes[i] as char);
        }
    }
    encode_utf8_valid_utf8(chars);
    encode_utf8_decode_utf8(chars);
}

/// Removing trailing white space keeps a first character that is not white
/// space.
proof fn lemma_trim_end_keeps_first(c: Seq<char>)
    requires
        c.len() > 0,
        !is_space(c[0]),
    ensures
        trim_end(c).len() > 0,
        trim_end(c)[0] == c[0],
    decreases c.len(),
{
    if is_space(c.last()) {
        assert(c.len() > 1);
        lemma_trim_end_keeps_first(c.drop_last());
    }
}

/// A line that starts with `#` is a comment and names nothing.
proof fn lemma_comment_line(line: Seq<u8>)
    requires
        line.len() > 0,
        line[0] == 35,
        forall|i: int| 0 <= i < line.len() ==> line[i] < 128,
    ensures
        name_on_line(line) is None,
{
    lemma_ascii_text(line);
    let text = ascii_chars(line);
    assert(text[0] == '#');
    assert(trim_start(text) == text);
    lemma_trim_end_keeps_first(text);
}

/// An empty line, or one holding only a carriage return, names nothing.
proof fn lemma_blank_lines()
    ensures
        name_on_line(Seq::<u8>::empty()) is None,
        name_on_line(seq![13u8]) is None,
{
    lemma_ascii_text(Seq::<u8>::empty());
    lemma_ascii_text(seq![13u8]);
    let cr = ascii_chars(seq![13u8]);
    assert(cr[0] == '\r');
    assert(cr.drop_first() =~= Seq::<char>::empty());
    assert(trim_start(cr) == trim_start(cr.drop_first()));
    assert(trim_start(Seq::<char>::empty()) == Seq::<char>::empty());
}

/// Lines that each name nothing name nothing together.
proof fn lemma_no_names(lines: Seq<Seq<u8>>)
    requires
        forall|i: int| 0 <= i < lines.len() ==> name_on_line(#[trigger] lines[i]) is None,
    ensures
        names_on_lines(lines) == Seq::<Seq<char>>::empty(),
    decreases lines.len(),
{
    if lines.len() > 0 {
        assert forall|i: int| 0 <= i < lines.drop_last().len() implies name_on_line(
            #[trigger] lines.drop_last()[i],
        ) is None by {
            assert(lines.drop_last()[i] == lines[i]);
        }
        assert(name_on_line(lines[lines.len() - 1]) is None);
        lemma_no_names(lines.drop_last());
    }
}

/// A line with no line feed, ended by one, splits into itself and an empty
/// last piece.
proof fn lemma_one_line(line: Seq<u8>)
    requires
        forall|i: int| 0 <= i < line.len() ==> line[i] != 10,
    ensures
        split_on(line.push(10u8), 10u8) == seq![line, Seq::<u8>::empty()],
{
    lemma_split_whole(line, 10u8);
    assert(line.push(10u8).drop_last() =~= line);
}

/// Each marker line, with the line ending that follows it, is a comment
/// line and an empty last piece.
proof fn lemma_marker_line(marker: Seq<u8>, eol: Seq<u8>)
    requires
        marker == begin_marker_spec() || marker == end_marker_spec(),
        eol == seq![10u8] || eol == seq![13u8, 10u8],
    ensures
        split_on(marker + eol, 10u8).len() == 2,
        split_on(marker + eol, 10u8).last() == Seq::<u8>::empty(),
        name_on_line(split_on(marker + eol, 10u8)[0]) is None,
{
    reveal(begin_marker_spec);
    reveal(end_marker_spec);
    let line = marker + eol.drop_last();
    assert(marker + eol =~= line.push(10u8));
    assert(forall|i: int| 0 <= i < marker.len() ==> marker[i] != 10 && marker[i] < 128);
    assert forall|i: int| 0 <= i < line.len() implies line[i] != 10 && line[i] < 128 by {
        if i >= marker.len() {
            assert(line[i] == 13);
        }
    }
    lemma_one_line(line);
    lemma_comment_line(line);
}

/// The names in a body are the names on its pieces before the last, when
/// the body ends its last line.
proof fn lemma_ended_body(body: Seq<u8>)
    requires
        body.len() > 0,
        body.last() == 10,
    ensures
        names_in_body(body) == names_on_lines(split_on(body, 10u8).drop_last()),
{
    lemma_split_ends_empty(body);
    let lines = split_on(body, 10u8);
    assert(lines =~= lines.drop_last() + seq![lines.last()]);
    lemma_names_join(lines.drop_last(), seq![lines.last()]);
    lemma_no_names(seq![lines.last()]);
}

/// Cairn's whole region, with whatever line ending stood in front of its
/// opening marker, names exactly what its body names: the marker lines and
/// the line endings around them are not hosts lines.
pub proof fn lemma_region_names(lead: Seq<u8>, body: Seq<u8>, eol: Seq<u8>)
    requires
        lead == Seq::<u8>::empty() || lead == seq![10u8] || lead == seq![13u8, 10u8],
        eol == seq![10u8] || eol == seq![13u8, 10u8],
        body.len() == 0 || body.last() == 10,
    ensures
        names_in_body(lead + region_with(body, eol)) == names_in_body(body),
{
    let opening = begin_marker_spec() + eol;
    let closing = end_marker_spec() + eol;
    lemma_marker_line(begin_marker_spec(), eol);
    lemma_marker_line(end_marker_spec(), eol);
    lemma_blank_lines();
    let tail = body + closing;
    let open_lines = split_on(opening, 10u8);
    let close_lines = split_on(closing, 10u8);
    assert(open_lines =~= seq![open_lines[0], open_lines[1]]);
    assert(close_lines =~= seq![close_lines[0], close_lines[1]]);
    lemma_no_names(close_lines);
    lemma_no_names(open_lines.drop_last());
    // The body and the closing marker.
    if body.len() == 0 {
        assert(tail =~= closing);
        assert(split_on(body, 10u8) =~= seq![Seq::<u8>::empty()]);
        lemma_no_names(split_on(body, 10u8));
    } else {
        lemma_split_join(body, closing, 10u8);
        lemma_names_join(split_on(body, 10u8).drop_last(), close_lines);
        lemma_ended_body(body);
    }
    assert(names_on_lines(split_on(tail, 10u8)) == names_in_body(body));
    // The opening marker.
    let region = opening + tail;
    assert(region_with(body, eol) =~= region);
    lemma_split_join(opening, tail, 10u8);
    lemma_names_join(open_lines.drop_last(), split_on(tail, 10u8));
    assert(names_in_body(region) == names_in_body(body));
    // Whatever stood in front of it.
    if lead.len() == 0 {
        assert(lead + region =~= region);
    } else {
        lemma_split_join(lead, region, 10u8);
        let lead_lines = split_on(lead, 10u8);
        if lead == seq![10u8] {
            lemma_one_line(Seq::<u8>::empty());
            assert(Seq::<u8>::empty().push(10u8) =~= lead);
        } else {
            lemma_one_line(seq![13u8]);
            assert(seq![13u8].push(10u8) =~= lead);
        }
        assert(lead_lines.drop_last().len() == 1);
        lemma_no_names(lead_lines.drop_last());
        lemma_names_join(lead_lines.drop_last(), split_on(region, 10u8));
    }
}

/// No byte of Cairn's hosts lines for valid names is a `#`, so no marker can
/// appear among them.
pub proof fn lemma_body_free_of_markers(names: Seq<Seq<char>>, mode: ReachMode, ending: LineEnding)
    requires
        forall|i: int| 0 <= i < names.len() ==> shape_outcome(#[trigger] names[i]) is Ok,
    ensures
        free_of_markers(hosts_body(names, mode, ending)),
        hosts_body(names, mode, ending).len() == 0 || hosts_body(names, mode, ending).last() == 10,
{
    lemma_no_hash(names, mode, ending);
    reveal(begin_marker_spec);
    reveal(end_marker_spec);
    let body = hosts_body(names, mode, ending);
    assert forall|i: int| !matches_at(body, begin_marker_spec(), i) && !matches_at(body, end_marker_spec(), i) by {
        if matches_at(body, begin_marker_spec(), i) {
            assert(body.subrange(i, i + 56)[0] == body[i]);
        }
        if matches_at(body, end_marker_spec(), i) {
            assert(body.subrange(i, i + 40)[0] == body[i]);
        }
    }
    if names.len() > 0 {
        lemma_body_ends_a_line(names, mode, ending);
    }
}

/// No byte of the hosts lines for valid names is a `#`.
proof fn lemma_no_hash(names: Seq<Seq<char>>, mode: ReachMode, ending: LineEnding)
    requires
        forall|i: int| 0 <= i < names.len() ==> shape_outcome(#[trigger] names[i]) is Ok,
    ensures
        forall|i: int| 0 <= i < hosts_body(names, mode, ending).len() ==> hosts_body(names, mode, ending)[i] != 35,
    decreases names.len(),
{
    if names.len() > 0 {
        let front = names.drop_last();
        assert forall|i: int| 0 <= i < front.len() implies shape_outcome(#[trigger] front[i]) is Ok by {
            assert(front[i] == names[i]);
        }
        lemma_no_hash(front, mode, ending);
        let name = names.last();
        assert(shape_outcome(names[names.len() - 1]) is Ok);
        lemma_shape_chars(name);
        assert(is_ascii_chars(name)) by {
            assert forall|j: int| 0 <= j < name.len() implies '\0' <= #[trigger] name[j] <= '\u{7f}' by {
                assert(name_char(name[j]));
            }
        }
        is_ascii_chars_encode_utf8(name);
        let encoded = encode_utf8(name);
        assert forall|j: int| 0 <= j < encoded.len() implies encoded[j] != 35 by {
            assert(name[j] as u8 == encoded[j]);
            assert(name_char(name[j]));
        }
        let (v4, v6) = mode_addresses(mode);
        lemma_addresses_writable(mode);
        is_ascii_chars_encode_utf8(v4);
        is_ascii_chars_encode_utf8(v6);
        assert forall|j: int| 0 <= j < encode_utf8(v4).len() implies encode_utf8(v4)[j] != 35 by {
            assert(v4[j] as u8 == encode_utf8(v4)[j]);
            reveal_strlit("127.0.0.1");
            reveal_strlit("0.0.0.0");
        }
        assert forall|j: int| 0 <= j < encode_utf8(v6).len() implies encode_utf8(v6)[j] != 35 by {
            assert(v6[j] as u8 == encode_utf8(v6)[j]);
            reveal_strlit("::1");
            reveal_strlit("::");
        }
        let pair = host_line_pair(name, mode, ending);
        let eol = eol_bytes(ending);
        assert forall|j: int| 0 <= j < pair.len() implies pair[j] != 35 by {
            let a = encode_utf8(v4);
            let n = encoded.len();
            let e = eol.len();
            let first = a.len() + 1 + n + e;
            if j < a.len() {
                assert(pair[j] == a[j]);
            } else if j == a.len() {
            } else if j < a.len() + 1 + n {
                assert(pair[j] == encoded[j - a.len() - 1]);
            } else if j < first {
                assert(pair[j] == eol[j - a.len() - 1 - n]);
            } else if j < first + encode_utf8(v6).len() {
                assert(pair[j] == encode_utf8(v6)[j - first]);
            } else if j == first + encode_utf8(v6).len() {
            } else if j < first + encode_utf8(v6).len() + 1 + n {
                assert(pair[j] == encoded[j - first - encode_utf8(v6).len() - 1]);
            } else {
                assert(pair[j] == eol[j - first - encode_utf8(v6).len() - 1 - n]);
            }
        }
        let body = hosts_body(names, mode, ending);
        assert(body == hosts_body(front, mode, ending) + pair);
        assert forall|i: int| 0 <= i < body.len() implies body[i] != 35 by {
            if i < hosts_body(front, mode, ending).len() {
                assert(body[i] == hosts_body(front, mode, ending)[i]);
            } else {
                assert(body[i] == pair[i - hosts_body(front, mode, ending).len()]);
            }
        }
    }
}

} // verus!
