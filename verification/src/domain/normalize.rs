//! One entry, one form, whatever the person typed.
//!
//! Everything that becomes protected comes through here, so this is the only
//! place that decides what a valid entry is, what the `www.` rule means, and
//! what Cairn refuses to touch. Refusals carry a sentence that can be shown to
//! a person exactly as written.
use vstd::prelude::*;
use crate::domain::entries::{domain_views, www_prefix, Domain};
use crate::domain::readback::lemma_shaped_is_writable;
use vstd::utf8::is_ascii_chars;
use crate::text::{
    is_space, lower, lemma_split_join, trim_start, trim_end, is_digit,
    all_digits, chars_of, ends_with, find, find_from, has_char, is_alnum, is_alnum_char,
    last_index_of, lower_all, lower_chars, push_chars, push_str, rfind_char, slice_of,
    split_chars, split_on, starts_with, string_of, trim, trim_chars, trim_end_char,
    trim_end_matching, utf8_len, char_views, all_digit_chars, byte_len,
};

verus! {

/// The longest a domain name may be, in bytes of its ASCII form.
const MAX_DOMAIN_LEN: usize = 253;

/// The longest a single label may be, in bytes.
const MAX_LABEL_LEN: usize = 63;

/// A stable tag for why an entry was not taken. Never shown.
#[derive(Clone, Copy, PartialEq, Eq, Debug, Structural)]
pub enum RejectionKind {
    Empty,
    NotAnAddress,
    SingleWord,
    IpAddress,
    Wildcard,
    TooLong,
    KeepsTheMachineWorking,
}

/// Why an entry was not taken, in words a person can read.
#[derive(Clone, PartialEq, Eq, Debug)]
pub struct Rejection {
    /// Shown as written.
    pub reason: String,
    /// The tag for tests and for the interface to key on.
    pub kind: RejectionKind,
}

/// A refusal as its tag and its sentence.
pub type Refusal = (RejectionKind, Seq<char>);

/// Names that must keep working for the machine, and for Cairn, to function.
/// The machine's own name is passed in: this module does no I/O.
#[derive(Clone, PartialEq, Eq, Debug)]
pub struct ReservedNames {
    /// This machine's own name, if the platform reports one.
    pub own_hostname: Option<String>,
}

impl Default for ReservedNames {
    fn default() -> (names: ReservedNames)
        ensures
            names.own_hostname is None,
    {
        ReservedNames { own_hostname: None }
    }
}

// ---------------------------------------------------------------------------
// The sentences
// ---------------------------------------------------------------------------

pub open spec fn empty_reason() -> Seq<char> {
    "Type an address to protect, like example.com."@
}

pub open spec fn wildcard_reason() -> Seq<char> {
    "Cairn protects one address at a time, so * will not work here. Add the addresses you want protected individually."@
}

pub open spec fn too_long_reason() -> Seq<char> {
    "That address is longer than a web address can be. Check it for a typo and try again."@
}

pub open spec fn ip_reason() -> Seq<char> {
    "That is a numeric address rather than a site name. Cairn protects names like example.com."@
}

pub open spec fn not_an_address_reason(text: Seq<char>) -> Seq<char> {
    trim(text) + " does not look like a web address. Try it in the form example.com."@
}

pub open spec fn single_word_reason(name: Seq<char>) -> Seq<char> {
    name + " looks like a single word rather than a web address. Try example.com."@
}

pub open spec fn reserved_reason(name: Seq<char>) -> Seq<char> {
    "Cairn keeps "@ + name
        + " working \u{2014} the machine and Cairn itself use it to reach things on this computer. Try the address of a site instead."@
}

/// The refusal of text that does not look like an address.
pub open spec fn not_an_address(text: Seq<char>) -> Refusal {
    (RejectionKind::NotAnAddress, not_an_address_reason(text))
}

// ---------------------------------------------------------------------------
// What each step means
// ---------------------------------------------------------------------------

/// `c` ends the host part of a URL: a path, a query or a fragment begins.
pub open spec fn is_url_stop(c: char) -> bool {
    c == '/' || c == '?' || c == '#'
}

/// The first position at or after `from` that ends the host part, or the
/// length of `s` when nothing does.
pub open spec fn first_stop(s: Seq<char>, from: int) -> int
    decreases s.len() - from,
{
    if from < 0 || from >= s.len() {
        s.len() as int
    } else if is_url_stop(s[from]) {
        from
    } else {
        first_stop(s, from + 1)
    }
}

/// `://`
pub open spec fn scheme_mark() -> Seq<char> {
    seq![':', '/', '/']
}

/// What is left of `input` once scheme, credentials, path, query, fragment,
/// port and trailing dots are taken away: the host, or why there is none.
pub open spec fn host_outcome(input: Seq<char>) -> Result<Seq<char>, Refusal> {
    let rest = trim(input);
    if rest.len() == 0 {
        Err((RejectionKind::Empty, empty_reason()))
    } else {
        let after_scheme = match find_from(rest, scheme_mark(), 0) {
            Some(at) => rest.subrange(at + 3, rest.len() as int),
            None => rest,
        };
        let after_credentials = match last_index_of(after_scheme, '@', after_scheme.len() as int) {
            Some(at) => after_scheme.subrange(at + 1, after_scheme.len() as int),
            None => after_scheme,
        };
        let before_path = after_credentials.subrange(0, first_stop(after_credentials, 0));
        if before_path.len() > 0 && before_path[0] == '[' {
            Err((RejectionKind::IpAddress, ip_reason()))
        } else {
            let colon = last_index_of(before_path, ':', before_path.len() as int);
            if colon is Some && !all_digits(
                before_path.subrange(colon->0 + 1, before_path.len() as int),
            ) {
                Err(not_an_address(input))
            } else {
                let host_part = match colon {
                    Some(at) => before_path.subrange(0, at),
                    None => before_path,
                };
                let host = trim_end_char(trim(host_part), '.');
                if host.len() == 0 {
                    Err((RejectionKind::Empty, empty_reason()))
                } else {
                    Ok(host)
                }
            }
        }
    }
}

/// What `idna::domain_to_ascii` gives for `host`: the name as the resolver
/// sees it, or `None` when the crate refuses it.
pub uninterp spec fn idna_to_ascii(host: Seq<char>) -> Option<Seq<char>>;

/// The ASCII, lower-case form of `host`, given what the IDNA conversion
/// gave for it.
pub open spec fn ascii_outcome(host: Seq<char>, converted: Option<Seq<char>>) -> Result<
    Seq<char>,
    Refusal,
> {
    if has_char(host, '*') {
        Err((RejectionKind::Wildcard, wildcard_reason()))
    } else {
        match converted {
            Some(ascii) => Ok(lower_all(ascii)),
            None => Err(not_an_address(host)),
        }
    }
}

/// `candidate` is a name the machine, or Cairn, needs to keep working.
pub open spec fn is_reserved(candidate: Seq<char>, own_hostname: Option<Seq<char>>) -> bool {
    ||| candidate == "localhost"@
    ||| candidate == "localhost.localdomain"@
    ||| candidate == "broadcasthost"@
    ||| candidate == "ip6-localhost"@
    ||| candidate == "ip6-loopback"@
    ||| candidate == "ip6-allnodes"@
    ||| candidate == "ip6-allrouters"@
    ||| ends_with(candidate, ".localhost"@)
    ||| ends_with(candidate, ".local"@)
    ||| ends_with(candidate, ".localdomain"@)
    ||| ends_with(candidate, ".arpa"@)
    ||| (own_hostname is Some && lower_all(candidate) == lower_all(own_hostname->0))
}

/// A label that cannot be part of a name: empty, over 63 bytes, starting or
/// ending with `-`, or holding anything but ASCII letters, digits and `-`.
pub open spec fn bad_label(label: Seq<char>) -> bool {
    ||| label.len() == 0
    ||| utf8_len(label) > 63
    ||| label[0] == '-'
    ||| label.last() == '-'
    ||| exists|i: int| 0 <= i < label.len() && !(is_alnum(label[i]) || label[i] == '-')
}

/// The shape rules: `Ok` when `name` is a name the resolver could look up.
pub open spec fn shape_outcome(name: Seq<char>) -> Result<(), Refusal> {
    let labels = split_on(name, '.');
    if utf8_len(name) > 253 {
        Err((RejectionKind::TooLong, too_long_reason()))
    } else if labels.len() < 2 {
        Err((RejectionKind::SingleWord, single_word_reason(name)))
    } else if forall|i: int| 0 <= i < labels.len() ==> labels[i].len() > 0 && all_digits(#[trigger] labels[i]) {
        Err((RejectionKind::IpAddress, ip_reason()))
    } else if exists|i: int| 0 <= i < labels.len() && bad_label(#[trigger] labels[i]) {
        Err(not_an_address(name))
    } else if all_digits(labels.last()) {
        Err((RejectionKind::IpAddress, ip_reason()))
    } else {
        Ok(())
    }
}

/// The entries a valid name protects: a root (exactly two labels) together
/// with its `www.` form, and anything else exactly as typed. A name typed
/// with `www.` pairs with its root the same way.
pub open spec fn with_www(name: Seq<char>) -> Seq<Seq<char>> {
    let root = if starts_with(name, www_prefix()) {
        name.subrange(4, name.len() as int)
    } else {
        name
    };
    if split_on(root, '.').len() != 2 {
        seq![name]
    } else {
        seq![root, www_prefix() + root]
    }
}

/// What normalizing `host` gives once its IDNA conversion is `converted`.
pub open spec fn finish_outcome(
    host: Seq<char>,
    converted: Option<Seq<char>>,
    own_hostname: Option<Seq<char>>,
) -> Result<Seq<Seq<char>>, Refusal> {
    match ascii_outcome(host, converted) {
        Err(refusal) => Err(refusal),
        Ok(ascii) => if is_reserved(ascii, own_hostname) {
            Err((RejectionKind::KeepsTheMachineWorking, reserved_reason(ascii)))
        } else {
            match shape_outcome(ascii) {
                Err(refusal) => Err(refusal),
                Ok(_) => Ok(with_www(ascii)),
            }
        },
    }
}

/// What normalizing the typed `input` gives.
pub open spec fn normalize_outcome(input: Seq<char>, own_hostname: Option<Seq<char>>) -> Result<
    Seq<Seq<char>>,
    Refusal,
> {
    match host_outcome(input) {
        Err(refusal) => Err(refusal),
        Ok(host) => finish_outcome(host, idna_to_ascii(host), own_hostname),
    }
}

/// What reading back a name from the wire gives.
pub open spec fn wire_outcome(candidate: Seq<char>) -> Option<Seq<char>> {
    let trimmed = trim_end_char(trim(candidate), '.');
    if trimmed.len() == 0 || utf8_len(trimmed) > 253 {
        None
    } else if shape_outcome(lower_all(trimmed)) is Ok {
        Some(lower_all(trimmed))
    } else {
        None
    }
}

/// A refusal as its tag and sentence.
pub open spec fn refusal_of(rejection: Rejection) -> Refusal {
    (rejection.kind, rejection.reason@)
}

/// A normalization result as plain values.
pub open spec fn normalized_view(result: Result<Vec<Domain>, Rejection>) -> Result<
    Seq<Seq<char>>,
    Refusal,
> {
    match result {
        Ok(domains) => Ok(domain_views(domains@)),
        Err(rejection) => Err(refusal_of(rejection)),
    }
}

/// The view of the reserved names' own host name.
pub open spec fn own_name(reserved: ReservedNames) -> Option<Seq<char>> {
    match reserved.own_hostname {
        Some(name) => Some(name@),
        None => None,
    }
}

// ---------------------------------------------------------------------------
// The outside conversion
// ---------------------------------------------------------------------------

/// `idna::domain_to_ascii`: the WHATWG "domain to ASCII" conversion (UTS 46
/// mapping, lower-casing and Punycode). Its result takes pages to state, so
/// the contract only names it: `Some` of the converted name exactly when the
/// crate returns `Ok`, as a function of `host` alone.
#[verifier::external_body]
fn domain_to_ascii(host: &str) -> (converted: Option<String>)
    ensures
        match converted {
            Some(ascii) => idna_to_ascii(host@) == Some(ascii@),
            None => idna_to_ascii(host@) is None,
        },
{
    match idna::domain_to_ascii(host) {
        Ok(ascii) => Some(ascii),
        Err(_) => None,
    }
}

// ---------------------------------------------------------------------------
// Small pieces
// ---------------------------------------------------------------------------

/// Where a search for `pattern` can land.
proof fn lemma_find_from_bounds(s: Seq<char>, pattern: Seq<char>, from: int)
    ensures
        find_from(s, pattern, from) matches Some(at) ==> from <= at && at + pattern.len() <= s.len(),
    decreases s.len() - from,
{
    if from >= 0 && from + pattern.len() <= s.len() && s.subrange(from, from + pattern.len())
        != pattern && from < s.len() {
        lemma_find_from_bounds(s, pattern, from + 1);
    }
}

/// Where a backward search for `c` can land.
proof fn lemma_last_index_bounds(s: Seq<char>, c: char, n: int)
    requires
        n <= s.len(),
    ensures
        last_index_of(s, c, n) matches Some(at) ==> 0 <= at < n && s[at] == c,
    decreases n,
{
    if n > 0 && s[n - 1] != c {
        lemma_last_index_bounds(s, c, n - 1);
    }
}

/// A rejection with `kind` and the sentence `reason`.
fn refusal(kind: RejectionKind, reason: &Vec<char>) -> (rejection: Rejection)
    ensures
        refusal_of(rejection) == (kind, reason@),
{
    Rejection { reason: string_of(reason.as_slice()), kind }
}

/// A rejection with `kind` and a fixed sentence.
fn fixed_refusal(kind: RejectionKind, reason: &str) -> (rejection: Rejection)
    ensures
        refusal_of(rejection) == (kind, reason@),
{
    let mut text: Vec<char> = Vec::new();
    push_str(&mut text, reason);
    assert(text@ =~= reason@);
    refusal(kind, &text)
}

fn empty_rejection() -> (rejection: Rejection)
    ensures
        refusal_of(rejection) == (RejectionKind::Empty, empty_reason()),
{
    fixed_refusal(RejectionKind::Empty, "Type an address to protect, like example.com.")
}

fn ip_rejection() -> (rejection: Rejection)
    ensures
        refusal_of(rejection) == (RejectionKind::IpAddress, ip_reason()),
{
    fixed_refusal(
        RejectionKind::IpAddress,
        "That is a numeric address rather than a site name. Cairn protects names like example.com.",
    )
}

/// The refusal of `text` as not looking like an address.
fn not_an_address_rejection(text: &Vec<char>) -> (rejection: Rejection)
    ensures
        refusal_of(rejection) == not_an_address(text@),
{
    let mut reason = trim_chars(text.as_slice());
    push_str(&mut reason, " does not look like a web address. Try it in the form example.com.");
    refusal(RejectionKind::NotAnAddress, &reason)
}

/// `a` holds exactly the characters of `b`.
fn same_as(a: &Vec<char>, b: &str) -> (answer: bool)
    ensures
        answer == (a@ == b@),
{
    let chars = chars_of(b);
    crate::domain::entries::compare_text(a.as_slice(), chars.as_slice()) == 0
}

/// `a` ends with the characters of `suffix`.
fn ends_with_str(a: &Vec<char>, suffix: &str) -> (answer: bool)
    ensures
        answer == ends_with(a@, suffix@),
{
    let chars = chars_of(suffix);
    if chars.len() > a.len() {
        return false;
    }
    let tail = slice_of(a.as_slice(), a.len() - chars.len(), a.len());
    crate::domain::entries::compare_text(tail.as_slice(), chars.as_slice()) == 0
}

/// Whether `c` occurs in `s`.
fn contains_char(s: &Vec<char>, c: char) -> (answer: bool)
    ensures
        answer == has_char(s@, c),
{
    let mut i: usize = 0;
    while i < s.len()
        invariant
            i <= s@.len(),
            forall|k: int| 0 <= k < i ==> s@[k] != c,
        decreases s.len() - i,
    {
        if s[i] == c {
            return true;
        }
        i = i + 1;
    }
    false
}

/// The position of the first character of `s` that ends the host part.
fn stop_position(s: &Vec<char>) -> (at: usize)
    ensures
        at == first_stop(s@, 0),
{
    let mut i: usize = 0;
    while i < s.len() && !(s[i] == '/' || s[i] == '?' || s[i] == '#')
        invariant
            i <= s@.len(),
            first_stop(s@, i as int) == first_stop(s@, 0),
        decreases s.len() - i,
    {
        i = i + 1;
    }
    i
}

// ---------------------------------------------------------------------------
// The steps
// ---------------------------------------------------------------------------

/// Strip everything that is not the host: scheme, credentials, port, path,
/// query, fragment, and trailing dots.
fn extract_host(input: &str) -> (host: Result<Vec<char>, Rejection>)
    ensures
        match host {
            Ok(host) => host_outcome(input@) == Ok::<Seq<char>, Refusal>(host@),
            Err(rejection) => host_outcome(input@) == Err::<Seq<char>, Refusal>(
                refusal_of(rejection),
            ),
        },
{
    let chars = chars_of(input);
    let rest = trim_chars(chars.as_slice());
    if rest.len() == 0 {
        return Err(empty_rejection());
    }
    let scheme = vec![':', '/', '/'];
    assert(scheme@ =~= scheme_mark());
    let after_scheme = match find(rest.as_slice(), scheme.as_slice()) {
        Some(at) => {
            proof {
                lemma_find_from_bounds(rest@, scheme_mark(), 0);
            }
            slice_of(rest.as_slice(), at + 3, rest.len())
        },
        None => rest,
    };
    let after_credentials = match rfind_char(after_scheme.as_slice(), '@') {
        Some(at) => {
            proof {
                lemma_last_index_bounds(after_scheme@, '@', after_scheme@.len() as int);
            }
            slice_of(after_scheme.as_slice(), at + 1, after_scheme.len())
        },
        None => after_scheme,
    };
    let stop = stop_position(&after_credentials);
    proof {
        lemma_first_stop_bound(after_credentials@, 0);
    }
    let before_path = slice_of(after_credentials.as_slice(), 0, stop);
    if before_path.len() > 0 && before_path[0] == '[' {
        return Err(ip_rejection());
    }
    let host_part = match rfind_char(before_path.as_slice(), ':') {
        Some(at) => {
            proof {
                lemma_last_index_bounds(before_path@, ':', before_path@.len() as int);
            }
            let port = slice_of(before_path.as_slice(), at + 1, before_path.len());
            if !all_digit_chars(port.as_slice()) {
                return Err(not_an_address_rejection(&chars));
            }
            slice_of(before_path.as_slice(), 0, at)
        },
        None => before_path,
    };
    let trimmed = trim_chars(host_part.as_slice());
    let host = trim_end_matching(trimmed.as_slice(), '.');
    if host.len() == 0 {
        return Err(empty_rejection());
    }
    Ok(host)
}

/// Where the host part ends lies within the text.
proof fn lemma_first_stop_bound(s: Seq<char>, from: int)
    requires
        0 <= from,
    ensures
        first_stop(s, from) <= s.len(),
        from <= s.len() ==> from <= first_stop(s, from),
    decreases s.len() - from,
{
    if from < s.len() && !is_url_stop(s[from]) {
        lemma_first_stop_bound(s, from + 1);
    }
}

/// The number of bytes the characters `s` take in UTF-8.
fn utf8_length(s: &Vec<char>) -> (len: usize)
    ensures
        len == utf8_len(s@),
{
    let text = string_of(s.as_slice());
    byte_len(text.as_str())
}

impl ReservedNames {
    /// Reserved names that include this machine's own name.
    pub fn with_hostname(hostname: String) -> (names: ReservedNames)
        ensures
            own_name(names) == Some(hostname@),
    {
        ReservedNames { own_hostname: Some(hostname) }
    }

    /// `candidate` is a name the machine, or Cairn, needs to keep working:
    /// a loopback or broadcast name, a name under a local-only suffix, or
    /// this machine's own name in any ASCII case.
    fn is_reserved(&self, candidate: &Vec<char>) -> (answer: bool)
        ensures
            answer == is_reserved(candidate@, own_name(*self)),
    {
        if same_as(candidate, "localhost") || same_as(candidate, "localhost.localdomain")
            || same_as(candidate, "broadcasthost") || same_as(candidate, "ip6-localhost")
            || same_as(candidate, "ip6-loopback") || same_as(candidate, "ip6-allnodes")
            || same_as(candidate, "ip6-allrouters") {
            return true;
        }
        if ends_with_str(candidate, ".localhost") || ends_with_str(candidate, ".local")
            || ends_with_str(candidate, ".localdomain") || ends_with_str(candidate, ".arpa") {
            return true;
        }
        match &self.own_hostname {
            Some(name) => {
                let own = chars_of(name.as_str());
                let folded_own = lower_chars(own.as_slice());
                let folded = lower_chars(candidate.as_slice());
                crate::domain::entries::compare_text(folded.as_slice(), folded_own.as_slice())
                    == 0
            },
            None => false,
        }
    }
}

/// Whether `label` cannot be part of a name.
fn is_bad_label(label: &Vec<char>) -> (answer: bool)
    ensures
        answer == bad_label(label@),
{
    if label.len() == 0 || utf8_length(label) > MAX_LABEL_LEN {
        return true;
    }
    if label[0] == '-' || label[label.len() - 1] == '-' {
        return true;
    }
    let mut i: usize = 0;
    while i < label.len()
        invariant
            i <= label@.len(),
            forall|k: int| 0 <= k < i ==> is_alnum(label@[k]) || label@[k] == '-',
        decreases label.len() - i,
    {
        if !(is_alnum_char(label[i]) || label[i] == '-') {
            return true;
        }
        i = i + 1;
    }
    false
}

/// The shape rules: anything that is not a name the resolver could look up
/// is turned away, with a sentence that says what to try instead.
fn validate(name: &Vec<char>) -> (checked: Result<(), Rejection>)
    ensures
        match checked {
            Ok(_) => shape_outcome(name@) is Ok,
            Err(rejection) => shape_outcome(name@) == Err::<(), Refusal>(refusal_of(rejection)),
        },
{
    if utf8_length(name) > MAX_DOMAIN_LEN {
        return Err(
            fixed_refusal(
                RejectionKind::TooLong,
                "That address is longer than a web address can be. Check it for a typo and try again.",
            ),
        );
    }
    let labels = split_chars(name.as_slice(), '.');
    let ghost views = split_on(name@, '.');
    assert(char_views(labels@) == views);
    assert forall|i: int| 0 <= i < labels@.len() implies #[trigger] labels@[i]@ == views[i] by {
        assert(char_views(labels@)[i] == labels@[i]@);
    }
    if labels.len() < 2 {
        let mut reason: Vec<char> = Vec::new();
        push_chars(&mut reason, name);
        push_str(&mut reason, " looks like a single word rather than a web address. Try example.com.");
        return Err(refusal(RejectionKind::SingleWord, &reason));
    }
    let mut all_numeric = true;
    let mut i: usize = 0;
    while i < labels.len()
        invariant
            i <= labels@.len() == views.len(),
            forall|k: int| 0 <= k < labels@.len() ==> #[trigger] labels@[k]@ == views[k],
            all_numeric == forall|k: int| 0 <= k < i ==> views[k].len() > 0 && all_digits(#[trigger] views[k]),
        decreases labels.len() - i,
    {
        let numeric = labels[i].len() > 0 && all_digit_chars(labels[i].as_slice());
        proof {
            assert(labels@[i as int]@ == views[i as int]);
        }
        all_numeric = all_numeric && numeric;
        i = i + 1;
    }
    if all_numeric {
        return Err(ip_rejection());
    }
    let mut i: usize = 0;
    while i < labels.len()
        invariant
            i <= labels@.len() == views.len(),
            forall|k: int| 0 <= k < labels@.len() ==> #[trigger] labels@[k]@ == views[k],
            forall|k: int| 0 <= k < i ==> !bad_label(#[trigger] views[k]),
            views == split_on(name@, '.'),
            utf8_len(name@) <= 253,
            labels@.len() >= 2,
            !(forall|k: int| 0 <= k < views.len() ==> views[k].len() > 0 && all_digits(#[trigger] views[k])),
        decreases labels.len() - i,
    {
        if is_bad_label(&labels[i]) {
            assert(bad_label(views[i as int]));
            return Err(not_an_address_rejection(name));
        }
        i = i + 1;
    }
    let last = labels.len() - 1;
    assert(views.last() == views[last as int]);
    if all_digit_chars(labels[last].as_slice()) {
        return Err(ip_rejection());
    }
    Ok(())
}

/// Pair a root with its `www.` form.
fn with_www_form(name: Vec<char>) -> (domains: Vec<Domain>)
    requires
        shape_outcome(name@) is Ok,
    ensures
        domain_views(domains@) == with_www(name@),
{
    proof {
        lemma_shaped_is_writable(name@);
    }
    let prefix = vec!['w', 'w', 'w', '.'];
    assert(prefix@ =~= www_prefix());
    let root = if crate::text::starts_at(name.as_slice(), prefix.as_slice(), 0) {
        slice_of(name.as_slice(), 4, name.len())
    } else {
        slice_of(name.as_slice(), 0, name.len())
    };
    assert(name@.subrange(0, name@.len() as int) =~= name@);
    let pieces = split_chars(root.as_slice(), '.');
    assert(char_views(pieces@).len() == pieces@.len());
    proof {
        // A root cut at a dot is part of the name, and not empty.
        if root@.len() == 0 {
            assert(split_on(root@, '.') =~= seq![Seq::<char>::empty()]);
        }
        assert forall|j: int| 0 <= j < root@.len() implies !is_space(#[trigger] root@[j]) && '\0' <= root@[j] <= '\u{7f}' by {
            if crate::text::starts_with(name@, www_prefix()) {
                assert(root@[j] == name@[j + 4]);
            } else {
                assert(root@[j] == name@[j]);
            }
        }
        assert(is_ascii_chars(root@));
    }
    if pieces.len() != 2 {
        let domains = vec![Domain::from_validated(string_of(name.as_slice()))];
        assert(domain_views(domains@) =~= seq![name@]);
        return domains;
    }
    let mut www = prefix;
    push_chars(&mut www, &root);
    proof {
        assert forall|j: int| 0 <= j < www@.len() implies !is_space(#[trigger] www@[j]) && '\0' <= www@[j] <= '\u{7f}' by {
            if j >= 4 {
                assert(www@[j] == root@[j - 4]);
            }
        }
        assert(is_ascii_chars(www@));
    }
    let domains = vec![
        Domain::from_validated(string_of(root.as_slice())),
        Domain::from_validated(string_of(www.as_slice())),
    ];
    assert(domain_views(domains@) =~= seq![root@, www_prefix() + root@]);
    domains
}

/// Finish normalizing `host`, given what the IDNA conversion gave for it:
/// refuse a wildcard and a name the conversion refused, fold the converted
/// name to lower case, refuse a reserved name, check the shape, and pair a
/// root with its `www.` form.
pub fn normalize_converted(
    host: &str,
    converted: Option<String>,
    reserved: &ReservedNames,
) -> (normalized: Result<Vec<Domain>, Rejection>)
    ensures
        normalized_view(normalized) == finish_outcome(
            host@,
            match converted {
                Some(ascii) => Some(ascii@),
                None => None,
            },
            own_name(*reserved),
        ),
{
    let host_chars = chars_of(host);
    if contains_char(&host_chars, '*') {
        return Err(
            fixed_refusal(
                RejectionKind::Wildcard,
                "Cairn protects one address at a time, so * will not work here. Add the addresses you want protected individually.",
            ),
        );
    }
    let ascii = match converted {
        Some(ascii) => {
            let chars = chars_of(ascii.as_str());
            lower_chars(chars.as_slice())
        },
        None => {
            return Err(not_an_address_rejection(&host_chars));
        },
    };
    if reserved.is_reserved(&ascii) {
        let mut reason: Vec<char> = Vec::new();
        push_str(&mut reason, "Cairn keeps ");
        push_chars(&mut reason, &ascii);
        push_str(
            &mut reason,
            " working \u{2014} the machine and Cairn itself use it to reach things on this computer. Try the address of a site instead.",
        );
        assert(reason@ =~= reserved_reason(ascii@));
        return Err(refusal(RejectionKind::KeepsTheMachineWorking, &reason));
    }
    match validate(&ascii) {
        Ok(_) => {},
        Err(rejection) => {
            return Err(rejection);
        },
    }
    Ok(with_www_form(ascii))
}

/// Normalize one typed entry into everything it protects: the entry itself,
/// plus its `www.` form when the entry is a root. Typing `www.example.com`
/// yields the same pair as typing `example.com`.
pub fn normalize(input: &str, reserved: &ReservedNames) -> (normalized: Result<Vec<Domain>, Rejection>)
    ensures
        normalized_view(normalized) == normalize_outcome(input@, own_name(*reserved)),
{
    let host = match extract_host(input) {
        Ok(host) => host,
        Err(rejection) => {
            return Err(rejection);
        },
    };
    let text = string_of(host.as_slice());
    let converted = if contains_char(&host, '*') {
        None
    } else {
        domain_to_ascii(text.as_str())
    };
    proof {
        if !has_char(host@, '*') {
            assert(match converted {
                Some(ascii) => Some(ascii@),
                None => None,
            } == idna_to_ascii(host@));
        }
    }
    normalize_converted(text.as_str(), converted, reserved)
}

/// Accept a name that arrived on the wire, in the form it arrived in: no
/// `www.` pairing and no sentence, since no person typed it.
pub fn accept_wire_name(candidate: &str) -> (accepted: Option<Domain>)
    ensures
        match accepted {
            Some(domain) => wire_outcome(candidate@) == Some(domain@),
            None => wire_outcome(candidate@) is None,
        },
{
    let chars = chars_of(candidate);
    let spaced = trim_chars(chars.as_slice());
    let trimmed = trim_end_matching(spaced.as_slice(), '.');
    if trimmed.len() == 0 || utf8_length(&trimmed) > MAX_DOMAIN_LEN {
        return None;
    }
    let ascii = lower_chars(trimmed.as_slice());
    match validate(&ascii) {
        Ok(_) => {
            proof {
                lemma_shaped_is_writable(ascii@);
            }
            Some(Domain::from_validated(string_of(ascii.as_slice())))
        },
        Err(_) => None,
    }
}

/// Read back a name Cairn wrote into its own hosts section.
pub fn accept_known_name(candidate: &str) -> (accepted: Option<Domain>)
    ensures
        match accepted {
            Some(domain) => wire_outcome(candidate@) == Some(domain@),
            None => wire_outcome(candidate@) is None,
        },
{
    accept_wire_name(candidate)
}

// ---------------------------------------------------------------------------
// Laws
// ---------------------------------------------------------------------------

/// A character a label may hold.
pub open spec fn label_char(c: char) -> bool {
    is_alnum(c) || c == '-'
}

/// A character a name of a valid shape may hold.
pub open spec fn name_char(c: char) -> bool {
    label_char(c) || c == '.'
}

/// When every piece holds only label characters, the text holds only label
/// characters and separators.
proof fn lemma_pieces_cover(s: Seq<char>)
    requires
        forall|k: int, j: int|
            0 <= k < split_on(s, '.').len() && 0 <= j < split_on(s, '.')[k].len() ==> label_char(
                #[trigger] split_on(s, '.')[k][j],
            ),
    ensures
        forall|i: int| 0 <= i < s.len() ==> name_char(#[trigger] s[i]),
    decreases s.len(),
{
    if s.len() > 0 {
        let front = s.drop_last();
        let c = s.last();
        let pieces = split_on(front, '.');
        crate::text::lemma_split_nonempty(front, '.');
        let whole = split_on(s, '.');
        assert forall|k: int, j: int| 0 <= k < pieces.len() && 0 <= j < pieces[k].len() implies label_char(
            #[trigger] pieces[k][j],
        ) by {
            if c == '.' {
                assert(whole[k] == pieces[k]);
            } else if k < pieces.len() - 1 {
                assert(whole[k] == pieces[k]);
            } else {
                assert(whole[k] == pieces[k].push(c));
                assert(whole[k][j] == pieces[k][j]);
            }
        }
        lemma_pieces_cover(front);
        if c != '.' {
            let last = whole.len() - 1;
            assert(whole[last] == pieces.last().push(c));
            assert(whole[last][whole[last].len() - 1] == c);
        }
        assert forall|i: int| 0 <= i < s.len() implies name_char(#[trigger] s[i]) by {
            if i < front.len() {
                assert(s[i] == front[i]);
            }
        }
    }
}

/// What the shape rules let through: letters, digits, `-` and `.`, never
/// ending in `.`, and no longer than 253 characters.
pub proof fn lemma_shape_chars(name: Seq<char>)
    requires
        shape_outcome(name) is Ok,
    ensures
        name.len() > 0,
        forall|i: int| 0 <= i < name.len() ==> name_char(#[trigger] name[i]),
        name.last() != '.',
        utf8_len(name) == name.len(),
        name.len() <= 253,
{
    let labels = split_on(name, '.');
    assert forall|k: int, j: int| 0 <= k < labels.len() && 0 <= j < labels[k].len() implies label_char(
        #[trigger] labels[k][j],
    ) by {
        assert(!bad_label(labels[k]));
    }
    lemma_pieces_cover(name);
    assert(!bad_label(labels[labels.len() - 1]));
    if name.len() == 0 {
        assert(labels =~= seq![Seq::<char>::empty()]);
    }
    if name.last() == '.' {
        assert(labels.last() =~= Seq::<char>::empty());
    }
    lemma_ascii_len(name);
}

/// Names of letters, digits, `-` and `.` take one byte a character.
proof fn lemma_ascii_len(name: Seq<char>)
    requires
        forall|i: int| 0 <= i < name.len() ==> name_char(#[trigger] name[i]),
    ensures
        utf8_len(name) == name.len(),
{
    assert(vstd::utf8::is_ascii_chars(name)) by {
        assert forall|i: int| 0 <= i < name.len() implies '\0' <= #[trigger] name[i] <= '\u{7f}' by {
            assert(name_char(name[i]));
        }
    }
    vstd::utf8::is_ascii_chars_encode_utf8(name);
}

/// Folding to lower case twice is folding once.
proof fn lemma_lower_twice(s: Seq<char>)
    ensures
        lower_all(lower_all(s)) == lower_all(s),
{
    assert(lower_all(lower_all(s)) =~= lower_all(s)) by {
        assert forall|i: int| 0 <= i < s.len() implies lower(lower(s[i])) == lower(s[i]) by {
            let c = s[i];
            if 'A' <= c && c <= 'Z' {
                assert(((c as u32) + 32) as char as u32 == (c as u32) + 32);
            }
        }
    }
}

/// A name of a valid shape in lower case, read from the wire, is itself.
proof fn lemma_wire_fixed_point(name: Seq<char>)
    requires
        shape_outcome(name) is Ok,
        lower_all(name) == name,
    ensures
        wire_outcome(name) == Some(name),
{
    lemma_shape_chars(name);
    assert(!is_space(name[0])) by {
        assert(name_char(name[0]));
    }
    assert(!is_space(name.last())) by {
        assert(name_char(name[name.len() - 1]));
    }
    assert(trim_start(name) == name);
    assert(trim_end(name) == name);
    assert(trim(name) == name);
    assert(trim_end_char(name, '.') == name);
}

/// What Cairn reads back from the wire, it reads back the same again: a name
/// accepted once is accepted unchanged.
pub proof fn lemma_wire_names_are_stable(candidate: Seq<char>)
    requires
        wire_outcome(candidate) is Some,
    ensures
        wire_outcome(wire_outcome(candidate)->0) == wire_outcome(candidate),
{
    let trimmed = trim_end_char(trim(candidate), '.');
    let name = lower_all(trimmed);
    lemma_lower_twice(trimmed);
    lemma_wire_fixed_point(name);
}

/// `www.` followed by `root`, cut at its dots: `www`, then the root's
/// labels.
proof fn lemma_www_labels(root: Seq<char>)
    ensures
        split_on(www_prefix() + root, '.') == seq![seq!['w', 'w', 'w']] + split_on(root, '.'),
{
    let www = www_prefix();
    lemma_split_join(www, root, '.');
    assert(www.drop_last() =~= seq!['w', 'w', 'w']);
    crate::text::lemma_split_whole(seq!['w', 'w', 'w'], '.');
    assert(split_on(www, '.') == split_on(www.drop_last(), '.').push(Seq::empty()));
    assert(split_on(www, '.').drop_last() =~= seq![seq!['w', 'w', 'w']]);
}

/// A root of exactly two valid labels, with `www.` in front, is still of a
/// valid shape, and the other way round.
proof fn lemma_www_shape(root: Seq<char>)
    requires
        split_on(root, '.').len() == 2,
    ensures
        shape_outcome(root) is Ok <==> shape_outcome(www_prefix() + root) is Ok,
{
    let labels = split_on(root, '.');
    let www_name = www_prefix() + root;
    let www_labels = split_on(www_name, '.');
    lemma_www_labels(root);
    let w = seq!['w', 'w', 'w'];
    assert(www_labels =~= seq![w] + labels);
    assert(www_labels.last() == labels.last());
    assert(!bad_label(w)) by {
        reveal_with_fuel(vstd::utf8::encode_utf8, 4);
        assert(vstd::utf8::is_ascii_chars(w));
        vstd::utf8::is_ascii_chars_encode_utf8(w);
    }
    assert(!all_digits(w)) by {
        assert(!is_digit(w[0]));
    }
    assert forall|i: int| 0 <= i < labels.len() implies #[trigger] www_labels[i + 1] == labels[i] by {}
    if shape_outcome(root) is Ok {
        lemma_shape_chars(root);
        assert forall|i: int| 0 <= i < www_name.len() implies name_char(#[trigger] www_name[i]) by {
            if i >= 4 {
                assert(www_name[i] == root[i - 4]);
            }
        }
        lemma_ascii_len(www_name);
        assert(!bad_label(labels[0]));
        assert(!bad_label(labels[1]));
        lemma_ascii_len(labels[0]);
        lemma_ascii_len(labels[1]);
        lemma_label_sizes(root);
        assert(!(forall|i: int| 0 <= i < www_labels.len() ==> www_labels[i].len() > 0 && all_digits(#[trigger] www_labels[i]))) by {
            assert(www_labels[0] == w);
        }
        assert(!exists|i: int| 0 <= i < www_labels.len() && bad_label(#[trigger] www_labels[i])) by {
            assert forall|i: int| 0 <= i < www_labels.len() implies !bad_label(#[trigger] www_labels[i]) by {
                if i > 0 {
                    assert(www_labels[i] == labels[i - 1]);
                }
            }
        }
    }
    if shape_outcome(www_name) is Ok {
        lemma_shape_chars(www_name);
        assert forall|i: int| 0 <= i < root.len() implies name_char(#[trigger] root[i]) by {
            assert(www_name[i + 4] == root[i]);
        }
        lemma_ascii_len(root);
        assert forall|i: int| 0 <= i < labels.len() implies !bad_label(#[trigger] labels[i]) by {
            assert(!bad_label(www_labels[i + 1]));
        }
        assert(!(forall|i: int| 0 <= i < labels.len() ==> labels[i].len() > 0 && all_digits(#[trigger] labels[i]))) by {
            assert(!all_digits(labels[1]));
        }
    }
}

/// A root of two labels of at most 63 bytes each is at most 127 long.
proof fn lemma_label_sizes(root: Seq<char>)
    requires
        split_on(root, '.').len() == 2,
        forall|i: int| 0 <= i < root.len() ==> name_char(#[trigger] root[i]),
        utf8_len(split_on(root, '.')[0]) <= 63,
        utf8_len(split_on(root, '.')[1]) <= 63,
        utf8_len(split_on(root, '.')[0]) == split_on(root, '.')[0].len(),
        utf8_len(split_on(root, '.')[1]) == split_on(root, '.')[1].len(),
    ensures
        root.len() <= 127,
{
    lemma_pieces_length(root);
    let labels = split_on(root, '.');
    assert(labels.drop_last() =~= seq![labels[0]]);
    assert(seq![labels[0]].drop_last() =~= Seq::<Seq<char>>::empty());
    let one = seq![labels[0]];
    assert(one.last() == labels[0]);
    assert(pieces_length(one.drop_last()) == 0);
    assert(pieces_length(one) == labels[0].len());
    assert(pieces_length(labels) == labels[0].len() + labels[1].len());
}

/// The pieces of a text and its separators make up its length.
proof fn lemma_pieces_length(s: Seq<char>)
    ensures
        s.len() + 1 == pieces_length(split_on(s, '.')) + split_on(s, '.').len(),
    decreases s.len(),
{
    if s.len() > 0 {
        let front = s.drop_last();
        lemma_pieces_length(front);
        crate::text::lemma_split_nonempty(front, '.');
        let pieces = split_on(front, '.');
        assert(s.drop_last() == front);
        if s.last() == '.' {
            let grown = pieces.push(Seq::<char>::empty());
            assert(grown.drop_last() =~= pieces);
            assert(split_on(s, '.') == grown);
            assert(pieces_length(grown) == pieces_length(pieces));
        } else {
            let grown = pieces.update(pieces.len() - 1, pieces.last().push(s.last()));
            assert(split_on(s, '.') == grown);
            lemma_pieces_length_update(pieces, s.last());
        }
    } else {
        assert(split_on(s, '.') =~= seq![Seq::<char>::empty()]);
        assert(seq![Seq::<char>::empty()].drop_last() =~= Seq::<Seq<char>>::empty());
        let one = seq![Seq::<char>::empty()];
        assert(one.last() == Seq::<char>::empty());
        assert(pieces_length(one.drop_last()) == 0);
        assert(pieces_length(one) == 0);
    }
}

/// The total length of some pieces.
pub open spec fn pieces_length(pieces: Seq<Seq<char>>) -> int
    decreases pieces.len(),
{
    if pieces.len() == 0 {
        0
    } else {
        pieces_length(pieces.drop_last()) + pieces.last().len()
    }
}

/// Growing the last piece by one grows the total by one.
proof fn lemma_pieces_length_update(pieces: Seq<Seq<char>>, c: char)
    requires
        pieces.len() > 0,
    ensures
        pieces_length(pieces.update(pieces.len() - 1, pieces.last().push(c))) == pieces_length(pieces) + 1,
{
    let grown = pieces.update(pieces.len() - 1, pieces.last().push(c));
    assert(grown.drop_last() =~= pieces.drop_last());
}

/// Typing a root's `www.` form gives the same entries as typing the root: the
/// root and its `www.` form. This holds of every root of two labels that does
/// not itself start with `www.`, whenever either form is accepted and
/// neither is a reserved name.
pub proof fn lemma_www_form_pairs(
    typed_host: Seq<char>,
    root_host: Seq<char>,
    root: Seq<char>,
    own_hostname: Option<Seq<char>>,
)
    requires
        !has_char(typed_host, '*'),
        !has_char(root_host, '*'),
        split_on(lower_all(root), '.').len() == 2,
        !starts_with(lower_all(root), www_prefix()),
        !is_reserved(lower_all(root), own_hostname),
        !is_reserved(lower_all(www_prefix() + root), own_hostname),
    ensures
        finish_outcome(typed_host, Some(www_prefix() + root), own_hostname) is Ok <==> finish_outcome(
            root_host,
            Some(root),
            own_hostname,
        ) is Ok,
        finish_outcome(root_host, Some(root), own_hostname) is Ok ==> finish_outcome(
            typed_host,
            Some(www_prefix() + root),
            own_hostname,
        ) == finish_outcome(root_host, Some(root), own_hostname),
{
    let name = lower_all(root);
    let www_name = lower_all(www_prefix() + root);
    assert(www_name =~= www_prefix() + name) by {
        assert forall|i: int| 0 <= i < www_name.len() implies www_name[i] == (www_prefix() + name)[i] by {
            if i < 4 {
                assert((www_prefix() + root)[i] == www_prefix()[i]);
            } else {
                assert((www_prefix() + root)[i] == root[i - 4]);
            }
        }
    }
    lemma_www_shape(name);
    assert(starts_with(www_name, www_prefix())) by {
        assert(www_name.subrange(0, 4) =~= www_prefix());
    }
    assert(www_name.subrange(4, www_name.len() as int) =~= name);
    assert(with_www(www_name) == with_www(name));
}

/// Every entry a normalization produces reads back from the wire as itself:
/// what Cairn writes into its section, it recognises again.
pub proof fn lemma_normalized_names_read_back(
    host: Seq<char>,
    converted: Option<Seq<char>>,
    own_hostname: Option<Seq<char>>,
)
    requires
        finish_outcome(host, converted, own_hostname) is Ok,
    ensures
        forall|i: int|
            0 <= i < finish_outcome(host, converted, own_hostname)->Ok_0.len() ==> wire_outcome(
                #[trigger] finish_outcome(host, converted, own_hostname)->Ok_0[i],
            ) == Some(finish_outcome(host, converted, own_hostname)->Ok_0[i]),
{
    let name = lower_all(converted->0);
    lemma_lower_twice(converted->0);
    lemma_wire_fixed_point(name);
    let entries = with_www(name);
    let root = if starts_with(name, www_prefix()) {
        name.subrange(4, name.len() as int)
    } else {
        name
    };
    if split_on(root, '.').len() == 2 {
        lemma_shape_chars(name);
        if starts_with(name, www_prefix()) {
            assert(name =~= www_prefix() + root) by {
                assert(name.subrange(0, 4) == www_prefix());
            }
        }
        lemma_www_shape(root);
        assert(lower_all(root) =~= root) by {
            assert forall|i: int| 0 <= i < root.len() implies lower(root[i]) == root[i] by {
                if starts_with(name, www_prefix()) {
                    assert(root[i] == name[i + 4]);
                    assert(lower_all(name)[i + 4] == name[i + 4]);
                } else {
                    assert(lower_all(name)[i] == name[i]);
                }
            }
        }
        lemma_wire_fixed_point(root);
        let www_root = www_prefix() + root;
        assert(lower_all(www_root) =~= www_root) by {
            assert forall|i: int| 0 <= i < www_root.len() implies lower(www_root[i]) == www_root[i] by {
                if i >= 4 {
                    assert(www_root[i] == root[i - 4]);
                    assert(lower_all(root)[i - 4] == root[i - 4]);
                }
            }
        }
        lemma_wire_fixed_point(www_root);
        assert(entries =~= seq![root, www_root]);
    } else {
        assert(entries =~= seq![name]);
    }
}

/// Every entry that normalizing a typed address gives is one that reading
/// back a name from Cairn's own section (or from the wire) accepts as
/// itself: what the person added is what verification recognises.
pub proof fn lemma_typed_names_are_known(input: Seq<char>, own_hostname: Option<Seq<char>>)
    requires
        normalize_outcome(input, own_hostname) is Ok,
    ensures
        forall|i: int|
            0 <= i < normalize_outcome(input, own_hostname)->Ok_0.len() ==> wire_outcome(
                #[trigger] normalize_outcome(input, own_hostname)->Ok_0[i],
            ) == Some(normalize_outcome(input, own_hostname)->Ok_0[i]),
{
    let host = host_outcome(input)->Ok_0;
    lemma_normalized_names_read_back(host, idna_to_ascii(host), own_hostname);
}

/// A text that neither starts nor ends with white space is its own trim.
proof fn lemma_trim_fixed(s: Seq<char>)
    requires
        s.len() > 0,
        !is_space(s[0]),
        !is_space(s.last()),
    ensures
        trim(s) == s,
{
    assert(trim_start(s) == s);
    assert(trim_end(s) == s);
}

/// With no `:` from `from` on, `://` is not found there.
proof fn lemma_no_scheme_mark(t: Seq<char>, from: int)
    requires
        0 <= from,
        forall|i: int| from <= i < t.len() ==> t[i] != ':',
    ensures
        find_from(t, scheme_mark(), from) is None,
    decreases t.len() - from,
{
    if from + 3 <= t.len() {
        assert(t.subrange(from, from + 3)[0] == t[from]);
        assert(t.subrange(from, from + 3) != scheme_mark());
        if from < t.len() {
            lemma_no_scheme_mark(t, from + 1);
        }
    }
}

/// `://` is found at `at` when it is there and no `:` comes before it.
proof fn lemma_scheme_mark_at(t: Seq<char>, from: int, at: int)
    requires
        0 <= from <= at,
        at + 3 <= t.len(),
        t.subrange(at, at + 3) == scheme_mark(),
        forall|i: int| from <= i < at ==> t[i] != ':',
    ensures
        find_from(t, scheme_mark(), from) == Some(at),
    decreases at - from,
{
    if from < at {
        assert(t.subrange(from, from + 3)[0] == t[from]);
        assert(t.subrange(from, from + 3) != scheme_mark());
        lemma_scheme_mark_at(t, from + 1, at);
    }
}

/// A character that does not occur in `t[..n]` has no last position there.
proof fn lemma_no_last(t: Seq<char>, c: char, n: int)
    requires
        n <= t.len(),
        forall|i: int| 0 <= i < n ==> t[i] != c,
    ensures
        last_index_of(t, c, n) is None,
    decreases n,
{
    if n > 0 {
        lemma_no_last(t, c, n - 1);
    }
}

/// The host part ends at `at` when a path, query or fragment starts there
/// and nothing before it (from `from`) starts one.
proof fn lemma_stop_at(t: Seq<char>, from: int, at: int)
    requires
        0 <= from <= at <= t.len(),
        at < t.len() ==> is_url_stop(t[at]),
        forall|i: int| from <= i < at ==> !is_url_stop(t[i]),
    ensures
        first_stop(t, from) == at,
    decreases at - from,
{
    if from < at {
        lemma_stop_at(t, from + 1, at);
    }
}

/// The host part of an address ends at the first `/`, `?` or `#`: whatever
/// follows the host (a path, a query such as `?ref=home`, or a fragment)
/// changes nothing of what is protected. Stated for an address made of an
/// optional scheme (`name://`), a host with no port, and what follows; the
/// part that follows holds no `@` (which would mark credentials) and no `:`
/// (which could start a scheme), and nothing here holds white space.
pub proof fn lemma_what_follows_the_host_is_ignored(
    scheme: Seq<char>,
    host: Seq<char>,
    stop: char,
    rest: Seq<char>,
    own_hostname: Option<Seq<char>>,
)
    requires
        stop == '/' || stop == '?' || stop == '#',
        scheme.len() == 0 || (scheme.len() >= 3 && scheme.subrange(scheme.len() - 3, scheme.len() as int)
            == scheme_mark() && forall|i: int| 0 <= i < scheme.len() - 3 ==> scheme[i] != ':'),
        forall|i: int| 0 <= i < scheme.len() ==> !is_space(#[trigger] scheme[i]),
        host.len() > 0,
        forall|i: int|
            0 <= i < host.len() ==> !is_url_stop(#[trigger] host[i]) && host[i] != '@' && host[i] != ':'
                && !is_space(host[i]),
        forall|i: int| 0 <= i < rest.len() ==> #[trigger] rest[i] != '@' && rest[i] != ':' && !is_space(rest[i]),
    ensures
        host_outcome(scheme + host + seq![stop] + rest) == host_outcome(scheme + host),
        normalize_outcome(scheme + host + seq![stop] + rest, own_hostname) == normalize_outcome(
            scheme + host,
            own_hostname,
        ),
{
    let u = scheme + host;
    let x = u + seq![stop] + rest;
    let tail = host + seq![stop] + rest;
    assert(!is_space(stop));
    // Neither has white space at either end.
    if scheme.len() > 0 {
        assert(u[0] == scheme[0] && x[0] == scheme[0]);
    } else {
        assert(u[0] == host[0] && x[0] == host[0]);
    }
    assert(u.last() == host.last());
    if rest.len() > 0 {
        assert(x.last() == rest.last());
    } else {
        assert(x.last() == stop);
    }
    lemma_trim_fixed(u);
    lemma_trim_fixed(x);
    // The scheme, if any, is the same, and what is after it is the host
    // (and, for the longer address, what follows it).
    let after_u = match find_from(u, scheme_mark(), 0) {
        Some(at) => u.subrange(at + 3, u.len() as int),
        None => u,
    };
    let after_x = match find_from(x, scheme_mark(), 0) {
        Some(at) => x.subrange(at + 3, x.len() as int),
        None => x,
    };
    if scheme.len() == 0 {
        assert(u =~= host);
        assert(x =~= tail);
        assert forall|i: int| 0 <= i < x.len() implies x[i] != ':' by {
            if i >= host.len() + 1 {
                assert(x[i] == rest[i - host.len() - 1]);
            }
        }
        lemma_no_scheme_mark(u, 0);
        lemma_no_scheme_mark(x, 0);
    } else {
        let at = scheme.len() - 3;
        assert(u.subrange(at, at + 3) =~= scheme.subrange(at, at + 3));
        assert(x.subrange(at, at + 3) =~= scheme.subrange(at, at + 3));
        lemma_scheme_mark_at(u, 0, at);
        lemma_scheme_mark_at(x, 0, at);
        assert(u.subrange(at + 3, u.len() as int) =~= host);
        assert(x.subrange(at + 3, x.len() as int) =~= tail);
    }
    assert(after_u == host);
    assert(after_x == tail);
    // No credentials in either.
    assert forall|i: int| 0 <= i < tail.len() implies tail[i] != '@' by {
        if i > host.len() {
            assert(tail[i] == rest[i - host.len() - 1]);
        }
    }
    lemma_no_last(host, '@', host.len() as int);
    lemma_no_last(tail, '@', tail.len() as int);
    // The host part ends where the host does.
    assert(tail[host.len() as int] == stop);
    lemma_stop_at(tail, 0, host.len() as int);
    lemma_stop_at(host, 0, host.len() as int);
    assert(tail.subrange(0, host.len() as int) =~= host);
    assert(host.subrange(0, host.len() as int) =~= host);
    // No port.
    lemma_no_last(host, ':', host.len() as int);
}

} // verus!
