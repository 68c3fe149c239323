//! Reading the system's list of site addresses, and comparing it with what
//! should be there. Read-only: every write goes through the helper.
use vstd::prelude::*;
use crate::domain::entries::{domain_views, names_in_body, parse_hosts_body, string_views, Domain};
use crate::domain::splice::{find_section, lemma_section_bounds, section_of, splice_error_text, Section, SpliceError};
use crate::services::{Outcome, Trouble, Verification};
use crate::text::{absent_from, char_views, chars_of, contains_chars, distinct_count, push_chars, push_str, string_of};

verus! {

/// The sentence when Cairn's own section cannot be read confidently.
pub open spec fn unreadable_text(problem: SpliceError) -> Seq<char> {
    "Cairn could not read its own section confidently, because "@ + splice_error_text(problem) + "."@
}

/// The trouble for a section that cannot be read confidently.
pub fn unreadable(problem: SpliceError) -> (trouble: Trouble)
    ensures
        trouble.message@ == unreadable_text(problem),
{
    let mut out: Vec<char> = Vec::new();
    push_str(&mut out, "Cairn could not read its own section confidently, because ");
    let text = problem.to_string();
    let chars = chars_of(text.as_str());
    push_chars(&mut out, &chars);
    push_str(&mut out, ".");
    assert(out@ =~= unreadable_text(problem));
    Trouble::new(string_of(out.as_slice()))
}

/// The names in Cairn's section of `raw`, as the file has them.
pub open spec fn section_names(raw: Seq<u8>, section: Section) -> Seq<Seq<char>> {
    names_in_body(raw.subrange(section.start as int, section.end as int))
}

/// Whether Cairn's section is in `raw`.
pub fn section_present_in(raw: &[u8]) -> (present: Outcome<bool>)
    ensures
        match section_of(raw@) {
            Ok(section) => present == Ok::<bool, Trouble>(section is Some),
            Err(problem) => present matches Err(t) && t.message@ == unreadable_text(problem),
        },
{
    match find_section(raw) {
        Ok(section) => Ok(section.is_some()),
        Err(problem) => Err(unreadable(problem)),
    }
}

/// What is actually in `raw`, compared with what should be: whether Cairn's
/// section is there, how many different names it holds (each is written on
/// two lines), the expected names it lacks, and the names in it that are not
/// expected. Never "we wrote it, so it worked".
pub fn verification_of(raw: &[u8], expected: &[Domain]) -> (checked: Outcome<Verification>)
    ensures
        match section_of(raw@) {
            Err(problem) => checked matches Err(t) && t.message@ == unreadable_text(problem),
            Ok(None) => checked matches Ok(v) && !v.section_present && v.entry_count == 0
                && domain_views(v.missing@) == domain_views(expected@) && v.unexpected@.len() == 0,
            Ok(Some(section)) => checked matches Ok(v) && {
                let found = section_names(raw@, section);
                &&& v.section_present
                &&& v.entry_count == distinct_count(found)
                &&& domain_views(v.missing@) == absent_from(domain_views(expected@), found)
                &&& string_views(v.unexpected@) == absent_from(found, domain_views(expected@))
            },
        },
{
    let section = match find_section(raw) {
        Ok(section) => section,
        Err(problem) => {
            return Err(unreadable(problem));
        },
    };
    let mut expected_texts: Vec<Vec<char>> = Vec::new();
    let mut i: usize = 0;
    while i < expected.len()
        invariant
            i <= expected@.len(),
            char_views(expected_texts@) == domain_views(expected@).subrange(0, i as int),
        decreases expected.len() - i,
    {
        let ghost before = expected_texts@;
        expected_texts.push(expected[i].chars());
        assert(char_views(expected_texts@) =~= char_views(before).push(expected@[i as int]@));
        assert(domain_views(expected@).subrange(0, i + 1) =~= domain_views(expected@).subrange(0, i as int).push(expected@[i as int]@));
        i = i + 1;
    }
    assert(domain_views(expected@).subrange(0, expected@.len() as int) =~= domain_views(expected@));
    let section = match section {
        Some(section) => section,
        None => {
            let mut missing: Vec<Domain> = Vec::new();
            let mut k: usize = 0;
            while k < expected.len()
                invariant
                    k <= expected@.len(),
                    domain_views(missing@) == domain_views(expected@).subrange(0, k as int),
                decreases expected.len() - k,
            {
                let ghost before = missing@;
                missing.push(expected[k].clone());
                assert(domain_views(missing@) =~= domain_views(before).push(expected@[k as int]@));
                assert(domain_views(expected@).subrange(0, k + 1) =~= domain_views(expected@).subrange(0, k as int).push(expected@[k as int]@));
                k = k + 1;
            }
            assert(domain_views(expected@).subrange(0, expected@.len() as int) =~= domain_views(expected@));
            return Ok(Verification { section_present: false, entry_count: 0, missing, unexpected: Vec::new() });
        },
    };
    let raw_len = raw.len();
    proof {
        lemma_section_bounds(raw@);
    }
    let region = crate::domain::entries::slice_bytes(raw, section.start, section.end);
    let found = parse_hosts_body(region.as_slice());
    let ghost found_views = string_views(found@);
    assert(found_views == section_names(raw@, section));
    let mut found_texts: Vec<Vec<char>> = Vec::new();
    let mut distinct: Vec<Vec<char>> = Vec::new();
    let mut unexpected: Vec<String> = Vec::new();
    let mut j: usize = 0;
    while j < found.len()
        invariant
            j <= found@.len(),
            found_views == string_views(found@),
            char_views(expected_texts@) == domain_views(expected@),
            char_views(found_texts@) == found_views.subrange(0, j as int),
            distinct@.len() == distinct_count(found_views.subrange(0, j as int)),
            forall|t: Seq<char>| char_views(distinct@).contains(t) <==> found_views.subrange(0, j as int).contains(t),
            string_views(unexpected@) == absent_from(found_views.subrange(0, j as int), domain_views(expected@)),
        decreases found.len() - j,
    {
        let text = chars_of(found[j].as_str());
        let ghost prefix = found_views.subrange(0, j as int);
        let ghost next = found_views.subrange(0, j + 1);
        assert(next.drop_last() =~= prefix);
        assert(next.last() == text@);
        let seen = contains_chars(&distinct, &text);
        let ghost distinct_before = distinct@;
        if !seen {
            distinct.push(chars_of(found[j].as_str()));
            assert(char_views(distinct@) =~= char_views(distinct_before).push(text@));
        }
        proof {
            assert forall|t: Seq<char>| char_views(distinct@).contains(t) <==> next.contains(t) by {
                assert(next.contains(t) <==> (prefix.contains(t) || t == text@)) by {
                    if next.contains(t) {
                        let m = choose|m: int| 0 <= m < next.len() && next[m] == t;
                        if m < prefix.len() {
                            assert(prefix[m] == next[m]);
                        }
                    }
                    if prefix.contains(t) {
                        let m = choose|m: int| 0 <= m < prefix.len() && prefix[m] == t;
                        assert(next[m] == prefix[m]);
                    }
                    if t == text@ {
                        assert(next[prefix.len() as int] == t);
                    }
                }
                if !seen {
                    let grown = char_views(distinct_before).push(text@);
                    assert(char_views(distinct@) == grown);
                    assert(grown.contains(t) <==> (char_views(distinct_before).contains(t) || t == text@)) by {
                        if grown.contains(t) {
                            let m = choose|m: int| 0 <= m < grown.len() && grown[m] == t;
                            if m < distinct_before.len() {
                                assert(char_views(distinct_before)[m] == grown[m]);
                            }
                        }
                        if char_views(distinct_before).contains(t) {
                            let m = choose|m: int| 0 <= m < distinct_before.len() && char_views(distinct_before)[m] == t;
                            assert(grown[m] == t);
                        }
                        if t == text@ {
                            assert(grown[distinct_before.len() as int] == t);
                        }
                    }
                }
            }
        }
        let expected_here = contains_chars(&expected_texts, &text);
        if !expected_here {
            let ghost unexpected_before = unexpected@;
            unexpected.push(found[j].clone());
            assert(string_views(unexpected@) =~= string_views(unexpected_before).push(text@));
        }
        let ghost found_texts_before = found_texts@;
        found_texts.push(text);
        assert(char_views(found_texts@) =~= char_views(found_texts_before).push(next.last()));
        j = j + 1;
    }
    assert(found_views.subrange(0, found@.len() as int) =~= found_views);
    let mut missing: Vec<Domain> = Vec::new();
    let mut k: usize = 0;
    while k < expected.len()
        invariant
            k <= expected@.len(),
            char_views(found_texts@) == found_views,
            domain_views(missing@) == absent_from(domain_views(expected@).subrange(0, k as int), found_views),
        decreases expected.len() - k,
    {
        let text = expected[k].chars();
        let ghost next = domain_views(expected@).subrange(0, k + 1);
        assert(next.drop_last() =~= domain_views(expected@).subrange(0, k as int));
        if !contains_chars(&found_texts, &text) {
            let ghost before = missing@;
            missing.push(expected[k].clone());
            assert(domain_views(missing@) =~= domain_views(before).push(text@));
        }
        k = k + 1;
    }
    assert(domain_views(expected@).subrange(0, expected@.len() as int) =~= domain_views(expected@));
    Ok(Verification { section_present: true, entry_count: distinct.len(), missing, unexpected })
}

} // verus!
