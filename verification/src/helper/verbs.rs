//! What the helper's verbs decide once the system file has been read: the
//! bytes to write, whether the read-back confirms them, and what Cairn's
//! section holds compared with what should be there. The reading and writing
//! themselves belong to the helper process.
use vstd::prelude::*;
use crate::domain::entries::{
    compare_text, domain_views, emit_hosts_body, hosts_body, lemma_text_less_total,
    lemma_text_less_transitive, names_in_body, parse_hosts_body, string_views, text_less, Domain,
    ReachMode,
};
use crate::domain::splice::{
    applied, apply, find_section, lemma_section_bounds, line_ending_outside, section_of,
    splice_error_text, detect_line_ending_outside, SpliceError, Spliced,
};
use crate::platform::hosts::section_names;
use crate::protocol::{Response, SectionState, TroubleKind};
use crate::text::{char_views, chars_of, contains_chars, distinct_count, push_chars, push_str, string_of};

verus! {

/// The names Cairn's section of `bytes` holds, as the file has them (none
/// when there is no section).
pub open spec fn domains_in_section(bytes: Seq<u8>) -> Result<Seq<Seq<char>>, SpliceError> {
    match section_of(bytes) {
        Err(problem) => Err(problem),
        Ok(None) => Ok(Seq::empty()),
        Ok(Some(section)) => Ok(section_names(bytes, section)),
    }
}

/// The domains inside Cairn's region, as the file has them.
pub fn section_domains(bytes: &[u8]) -> (found: Result<Vec<String>, SpliceError>)
    ensures
        match found {
            Ok(names) => domains_in_section(bytes@) == Ok::<Seq<Seq<char>>, SpliceError>(string_views(names@)),
            Err(problem) => domains_in_section(bytes@) == Err::<Seq<Seq<char>>, SpliceError>(problem),
        },
{
    let section = match find_section(bytes) {
        Ok(Some(section)) => section,
        Ok(None) => {
            let none: Vec<String> = Vec::new();
            assert(string_views(none@) =~= Seq::<Seq<char>>::empty());
            return Ok(none);
        },
        Err(problem) => {
            return Err(problem);
        },
    };
    let len = bytes.len();
    proof {
        lemma_section_bounds(bytes@);
    }
    let region = crate::domain::entries::slice_bytes(bytes, section.start, section.end);
    Ok(parse_hosts_body(region.as_slice()))
}

/// The bytes that put `entries` into force in `original`: the hosts lines
/// for them, in the file's own line ending, spliced into Cairn's section and
/// nowhere else.
pub fn plan_section(original: &[u8], entries: &[Domain], mode: ReachMode) -> (planned: Result<Spliced, SpliceError>)
    ensures
        match planned {
            Ok(spliced) => applied(
                original@,
                hosts_body(domain_views(entries@), mode, line_ending_outside(original@)),
            ) == Ok::<(Seq<u8>, bool), SpliceError>((spliced.bytes@, spliced.separator_added)),
            Err(problem) => applied(
                original@,
                hosts_body(domain_views(entries@), mode, line_ending_outside(original@)),
            ) == Err::<(Seq<u8>, bool), SpliceError>(problem),
        },
{
    let ending = detect_line_ending_outside(original);
    let body = emit_hosts_body(entries, mode, ending);
    apply(original, body.as_slice())
}

/// The sentence when the section could not be read and the file was left
/// alone.
pub open spec fn left_alone_text(problem: SpliceError) -> Seq<char> {
    "Cairn left the system's list of site addresses alone, because "@ + splice_error_text(problem)
        + ". Nothing has been changed."@
}

/// The answer when Cairn's section could not be read confidently.
pub fn section_unreadable(problem: SpliceError) -> (answer: Response)
    ensures
        answer matches Response::Trouble { message, kind } && kind == TroubleKind::SectionUnreadable
            && message@ == left_alone_text(problem),
{
    let mut out: Vec<char> = Vec::new();
    push_str(&mut out, "Cairn left the system's list of site addresses alone, because ");
    let text = problem.to_string();
    let chars = chars_of(text.as_str());
    push_chars(&mut out, &chars);
    push_str(&mut out, ". Nothing has been changed.");
    assert(out@ =~= left_alone_text(problem));
    Response::Trouble { message: string_of(out.as_slice()), kind: TroubleKind::SectionUnreadable }
}

/// The sentence when a write could not be confirmed by reading it back.
pub open spec fn not_confirmed_text() -> Seq<char> {
    "Cairn wrote your protected sites but could not confirm them by reading the file back. Protection is shown as not confirmed until it can."@
}

/// What the read-back after writing `entry_count` entries confirms: the
/// section must hold two lines for each, an IPv4 and an IPv6 one. `Ok` with
/// the count confirmed, or the answer to give instead.
pub fn confirm_written(after: &[u8], entry_count: usize) -> (confirmed: Result<usize, Response>)
    ensures
        match domains_in_section(after@) {
            Err(problem) => confirmed matches Err(Response::Trouble { message, kind })
                && kind == TroubleKind::SectionUnreadable && message@ == left_alone_text(problem),
            Ok(found) => if found.len() == 2 * entry_count {
                confirmed == Ok::<usize, Response>(entry_count)
            } else {
                confirmed matches Err(Response::Trouble { message, kind }) && kind
                    == TroubleKind::NotVerified && message@ == not_confirmed_text()
            },
        },
{
    let found = match section_domains(after) {
        Ok(found) => found,
        Err(problem) => {
            return Err(section_unreadable(problem));
        },
    };
    assert(string_views(found@).len() == found@.len());
    let lines = found.len();
    if lines % 2 != 0 || lines / 2 != entry_count {
        let mut out: Vec<char> = Vec::new();
        push_str(
            &mut out,
            "Cairn wrote your protected sites but could not confirm them by reading the file back. Protection is shown as not confirmed until it can.",
        );
        assert(out@ =~= not_confirmed_text());
        return Err(Response::Trouble { message: string_of(out.as_slice()), kind: TroubleKind::NotVerified });
    }
    Ok(entry_count)
}

/// Whether Cairn's section is still in `after`, once it was meant to be
/// gone.
pub fn still_present(after: &[u8]) -> (present: bool)
    ensures
        present == (section_of(after@) matches Ok(Some(_))),
{
    match find_section(after) {
        Ok(Some(_)) => true,
        _ => false,
    }
}

/// `items` is in strictly increasing order.
pub open spec fn strictly_sorted(items: Seq<Seq<char>>) -> bool {
    forall|i: int, j: int| 0 <= i < j < items.len() ==> text_less(items[i], items[j])
}

/// Every item of `items` once, in increasing order: the order a set of
/// strings is walked in.
fn sorted_unique(items: &Vec<Vec<char>>) -> (sorted: Vec<Vec<char>>)
    ensures
        strictly_sorted(char_views(sorted@)),
        forall|t: Seq<char>| char_views(sorted@).contains(t) <==> char_views(items@).contains(t),
{
    let mut sorted: Vec<Vec<char>> = Vec::new();
    let mut i: usize = 0;
    while i < items.len()
        invariant
            i <= items@.len(),
            strictly_sorted(char_views(sorted@)),
            forall|t: Seq<char>| char_views(sorted@).contains(t) <==> char_views(items@.subrange(0, i as int)).contains(t),
        decreases items.len() - i,
    {
        let item = &items[i];
        let ghost views = char_views(sorted@);
        let mut p: usize = 0;
        while p < sorted.len() && compare_text(sorted[p].as_slice(), item.as_slice()) < 0
            invariant
                p <= sorted@.len(),
                views == char_views(sorted@),
                forall|a: int| 0 <= a < p ==> text_less(views[a], item@),
            decreases sorted.len() - p,
        {
            p = p + 1;
        }
        let ghost prefix = char_views(items@.subrange(0, i as int));
        let ghost next = char_views(items@.subrange(0, i + 1));
        assert(next =~= prefix.push(item@));
        proof {
            assert forall|t: Seq<char>| next.contains(t) <==> (prefix.contains(t) || t == item@) by {
                if next.contains(t) {
                    let m = choose|m: int| 0 <= m < next.len() && next[m] == t;
                    if m < prefix.len() {
                        assert(prefix[m] == next[m]);
                    }
                }
                if prefix.contains(t) {
                    let m = choose|m: int| 0 <= m < prefix.len() && prefix[m] == t;
                    assert(next[m] == t);
                }
                if t == item@ {
                    assert(next[prefix.len() as int] == t);
                }
            }
        }
        if p < sorted.len() && compare_text(sorted[p].as_slice(), item.as_slice()) == 0 {
            assert(views[p as int] == item@);
        } else {
            proof {
                if p < views.len() {
                    lemma_text_less_total(views[p as int], item@);
                }
            }
            sorted.insert(p, item.clone());
            proof {
                let after = char_views(sorted@);
                assert(after =~= views.insert(p as int, item@));
                assert forall|a: int, b: int| 0 <= a < b < after.len() implies text_less(after[a], after[b]) by {
                    if b == p {
                    } else if a == p {
                        assert(after[b] == views[b - 1]);
                        if b - 1 > p {
                            lemma_text_less_transitive(item@, views[p as int], views[b - 1]);
                        }
                    } else if a < p && b > p {
                        assert(after[b] == views[b - 1]);
                        if b - 1 > a {
                        }
                    } else if a > p {
                        assert(after[a] == views[a - 1] && after[b] == views[b - 1]);
                    }
                }
                assert forall|t: Seq<char>| after.contains(t) <==> (views.contains(t) || t == item@) by {
                    if after.contains(t) {
                        let m = choose|m: int| 0 <= m < after.len() && after[m] == t;
                        if m < p {
                            assert(views[m] == t);
                        } else if m > p {
                            assert(views[m - 1] == t);
                        }
                    }
                    if views.contains(t) {
                        let m = choose|m: int| 0 <= m < views.len() && views[m] == t;
                        if m < p {
                            assert(after[m] == t);
                        } else {
                            assert(after[m + 1] == t);
                        }
                    }
                    if t == item@ {
                        assert(after[p as int] == t);
                    }
                }
            }
        }
        i = i + 1;
    }
    assert(items@.subrange(0, items@.len() as int) =~= items@);
    sorted
}

/// What Cairn's section holds compared with what should be there: whether
/// anything is there, how many different domains, which expected domains
/// are missing and which found ones are not expected (each once, in order),
/// and whether that amounts to drift, the trigger for silent repair.
pub open spec fn state_matches(state: SectionState, found: Seq<Seq<char>>, expected: Seq<Seq<char>>) -> bool {
    &&& state.present == (found.len() > 0)
    &&& state.entry_count == distinct_count(found)
    &&& strictly_sorted(string_views(state.missing@))
    &&& forall|t: Seq<char>| string_views(state.missing@).contains(t) <==> (expected.contains(t) && !found.contains(t))
    &&& strictly_sorted(string_views(state.unexpected@))
    &&& forall|t: Seq<char>| string_views(state.unexpected@).contains(t) <==> (found.contains(t) && !expected.contains(t))
    &&& state.drift == ((expected.len() > 0 && found.len() == 0) || state.missing@.len() > 0 || state.unexpected@.len() > 0)
}

/// Strings from characters, one for one.
fn strings_of(texts: &Vec<Vec<char>>) -> (strings: Vec<String>)
    ensures
        string_views(strings@) == char_views(texts@),
{
    let mut strings: Vec<String> = Vec::new();
    let mut i: usize = 0;
    while i < texts.len()
        invariant
            i <= texts@.len(),
            string_views(strings@) == char_views(texts@).subrange(0, i as int),
        decreases texts.len() - i,
    {
        let ghost before = strings@;
        strings.push(string_of(texts[i].as_slice()));
        assert(string_views(strings@) =~= string_views(before).push(texts@[i as int]@));
        assert(char_views(texts@).subrange(0, i + 1) =~= char_views(texts@).subrange(0, i as int).push(texts@[i as int]@));
        i = i + 1;
    }
    assert(char_views(texts@).subrange(0, texts@.len() as int) =~= char_views(texts@));
    strings
}

/// The items of `items` that `other` does not hold.
fn not_in(items: &Vec<Vec<char>>, other: &Vec<Vec<char>>) -> (kept: Vec<Vec<char>>)
    ensures
        forall|t: Seq<char>| char_views(kept@).contains(t) <==> (char_views(items@).contains(t) && !char_views(other@).contains(t)),
{
    let mut kept: Vec<Vec<char>> = Vec::new();
    let mut i: usize = 0;
    while i < items.len()
        invariant
            i <= items@.len(),
            forall|t: Seq<char>| char_views(kept@).contains(t) <==> (char_views(items@.subrange(0, i as int)).contains(t) && !char_views(other@).contains(t)),
        decreases items.len() - i,
    {
        let ghost before = char_views(kept@);
        let ghost prefix = char_views(items@.subrange(0, i as int));
        let ghost next = char_views(items@.subrange(0, i + 1));
        assert(next =~= prefix.push(items@[i as int]@));
        let absent = !contains_chars(other, &items[i]);
        if absent {
            kept.push(items[i].clone());
        }
        proof {
            let item = items@[i as int]@;
            assert forall|t: Seq<char>| char_views(kept@).contains(t) <==> (next.contains(t) && !char_views(other@).contains(t)) by {
                assert(next.contains(t) <==> (prefix.contains(t) || t == item)) by {
                    if next.contains(t) {
                        let m = choose|m: int| 0 <= m < next.len() && next[m] == t;
                        if m < prefix.len() {
                            assert(prefix[m] == next[m]);
                        }
                    }
                    if prefix.contains(t) {
                        let m = choose|m: int| 0 <= m < prefix.len() && prefix[m] == t;
                        assert(next[m] == t);
                    }
                    if t == item {
                        assert(next[prefix.len() as int] == t);
                    }
                }
                if absent {
                    let grown = char_views(kept@);
                    assert(grown =~= before.push(item));
                    assert(grown.contains(t) <==> (before.contains(t) || t == item)) by {
                        if grown.contains(t) {
                            let m = choose|m: int| 0 <= m < grown.len() && grown[m] == t;
                            if m < before.len() {
                                assert(before[m] == grown[m]);
                            }
                        }
                        if before.contains(t) {
                            let m = choose|m: int| 0 <= m < before.len() && before[m] == t;
                            assert(grown[m] == t);
                        }
                        if t == item {
                            assert(grown[before.len() as int] == t);
                        }
                    }
                }
            }
        }
        i = i + 1;
    }
    assert(items@.subrange(0, items@.len() as int) =~= items@);
    kept
}

/// The characters of each string.
fn texts_of(strings: &[String]) -> (texts: Vec<Vec<char>>)
    ensures
        char_views(texts@) == string_views(strings@),
{
    let mut texts: Vec<Vec<char>> = Vec::new();
    let mut i: usize = 0;
    while i < strings.len()
        invariant
            i <= strings@.len(),
            char_views(texts@) == string_views(strings@).subrange(0, i as int),
        decreases strings.len() - i,
    {
        let ghost before = texts@;
        texts.push(chars_of(strings[i].as_str()));
        assert(char_views(texts@) =~= char_views(before).push(strings@[i as int]@));
        assert(string_views(strings@).subrange(0, i + 1) =~= string_views(strings@).subrange(0, i as int).push(strings@[i as int]@));
        i = i + 1;
    }
    assert(string_views(strings@).subrange(0, strings@.len() as int) =~= string_views(strings@));
    texts
}

/// Compare what Cairn's section holds with what should be there. Counted in
/// domains, not lines: each domain is written on two lines.
pub fn section_state(found: &[String], expected: &[Domain]) -> (state: SectionState)
    ensures
        state_matches(state, string_views(found@), domain_views(expected@)),
{
    let found_texts = texts_of(found);
    let mut expected_texts: Vec<Vec<char>> = Vec::new();
    let mut i: usize = 0;
    while i < expected.len()
        invariant
            i <= expected@.len(),
            char_views(expected_texts@) == domain_views(expected@).subrange(0, i as int),
        decreases expected.len() - i,
    {
        let ghost before = expected_texts@;
        expected_texts.push(expected[i].chars());
        assert(char_views(expected_texts@) =~= char_views(before).push(expected@[i as int]@));
        assert(domain_views(expected@).subrange(0, i + 1) =~= domain_views(expected@).subrange(0, i as int).push(expected@[i as int]@));
        i = i + 1;
    }
    assert(domain_views(expected@).subrange(0, expected@.len() as int) =~= domain_views(expected@));
    let missing_texts = sorted_unique(&not_in(&expected_texts, &found_texts));
    let unexpected_texts = sorted_unique(&not_in(&found_texts, &expected_texts));
    let distinct = sorted_unique(&found_texts);
    proof {
        lemma_sorted_count(char_views(distinct@), string_views(found@));
    }
    let missing = strings_of(&missing_texts);
    let unexpected = strings_of(&unexpected_texts);
    let present = found.len() > 0;
    let drift = (expected.len() > 0 && !present) || missing.len() > 0 || unexpected.len() > 0;
    SectionState { present, entry_count: distinct.len(), drift, missing, unexpected }
}

/// A strictly sorted list holding exactly the items of `items` has as many
/// entries as `items` has different items.
proof fn lemma_sorted_count(sorted: Seq<Seq<char>>, items: Seq<Seq<char>>)
    requires
        strictly_sorted(sorted),
        forall|t: Seq<char>| sorted.contains(t) <==> items.contains(t),
    ensures
        sorted.len() == distinct_count(items),
    decreases items.len(),
{
    if items.len() == 0 {
        if sorted.len() > 0 {
            assert(sorted.contains(sorted[0]));
        }
    } else {
        let front = items.drop_last();
        let last = items.last();
        assert(items =~= front.push(last));
        if front.contains(last) {
            assert forall|t: Seq<char>| sorted.contains(t) <==> front.contains(t) by {
                if items.contains(t) && t != last {
                    let m = choose|m: int| 0 <= m < items.len() && items[m] == t;
                    assert(front[m] == t);
                }
                if front.contains(t) {
                    let m = choose|m: int| 0 <= m < front.len() && front[m] == t;
                    assert(items[m] == t);
                }
            }
            lemma_sorted_count(sorted, front);
        } else {
            assert(sorted.contains(last)) by {
                assert(items[items.len() - 1] == last);
            }
            let k = choose|k: int| 0 <= k < sorted.len() && sorted[k] == last;
            let rest = sorted.remove(k);
            assert forall|a: int, b: int| 0 <= a < b < rest.len() implies text_less(rest[a], rest[b]) by {
                if b < k {
                } else if a < k {
                    assert(rest[b] == sorted[b + 1]);
                } else {
                    assert(rest[a] == sorted[a + 1] && rest[b] == sorted[b + 1]);
                }
            }
            assert forall|t: Seq<char>| rest.contains(t) <==> front.contains(t) by {
                if rest.contains(t) {
                    let m = choose|m: int| 0 <= m < rest.len() && rest[m] == t;
                    let at = if m < k { m } else { m + 1 };
                    assert(sorted[at] == t);
                    if t == last {
                        lemma_text_less_total(sorted[at], sorted[k]);
                        if at < k {
                            assert(text_less(sorted[at], sorted[k]));
                        } else {
                            assert(text_less(sorted[k], sorted[at]));
                        }
                    }
                    assert(items.contains(t));
                    let n = choose|n: int| 0 <= n < items.len() && items[n] == t;
                    if n == items.len() - 1 {
                        assert(t == last);
                    }
                    assert(front[n] == t);
                }
                if front.contains(t) {
                    let n = choose|n: int| 0 <= n < front.len() && front[n] == t;
                    assert(items[n] == t);
                    assert(sorted.contains(t));
                    let m = choose|m: int| 0 <= m < sorted.len() && sorted[m] == t;
                    assert(m != k);
                    if m < k {
                        assert(rest[m] == t);
                    } else {
                        assert(rest[m - 1] == t);
                    }
                }
            }
            lemma_sorted_count(rest, front);
        }
    }
}

} // verus!
