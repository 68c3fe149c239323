//! What Cairn protects, and the hosts lines that put it into force.
//!
//! A `Domain` only exists if it came through [`crate::domain::normalize`]: the
//! type is the guarantee that every entry in the system is in one form.
use vstd::prelude::*;

use crate::text::{
    chars_of, is_space, is_space_char, split_on, string_of, trim, trim_chars, utf8_len,
};

verus! {

// ---------------------------------------------------------------------------
// Domains
// ---------------------------------------------------------------------------

/// A normalized, validated domain. Lowercase, ASCII (punycode if the person
/// typed a non-ASCII name), no scheme, no port, no path, no trailing dot.
///
/// There is deliberately no public constructor from a raw string. Everything
/// that becomes a `Domain` passes the same validation.
#[derive(PartialEq, Eq, PartialOrd, Ord, Hash, Debug)]
pub struct Domain(String);

impl View for Domain {
    type V = Seq<char>;

    closed spec fn view(&self) -> Seq<char> {
        self.0@
    }
}

impl Clone for Domain {
    fn clone(&self) -> (copy: Self)
        ensures
            copy@ == self@,
    {
        proof {
            use_type_invariant(self);
        }
        Domain(self.0.clone())
    }
}

/// `www.`
pub open spec fn www_prefix() -> Seq<char> {
    seq!['w', 'w', 'w', '.']
}

impl Domain {
    /// Every domain can be written on a hosts line and read back: it is not
    /// empty, holds no white space, and is ASCII.
    #[verifier::type_invariant]
    spec fn writable(self) -> bool {
        crate::domain::readback::writable_name(self.0@)
    }

    /// Only the normalizer may mint one of these.
    pub(crate) fn from_validated(value: String) -> (domain: Self)
        requires
            crate::domain::readback::writable_name(value@),
        ensures
            domain@ == value@,
    {
        Domain(value)
    }

    pub fn as_str(&self) -> (text: &str)
        ensures
            text@ == self@,
    {
        self.0.as_str()
    }

    /// The characters of this domain.
    pub fn chars(&self) -> (chars: Vec<char>)
        ensures
            chars@ == self@,
    {
        chars_of(self.0.as_str())
    }

    /// True when this is the `www.` form of another entry.
    pub fn is_www(&self) -> (answer: bool)
        ensures
            answer == crate::text::starts_with(self@, www_prefix()),
    {
        let chars = self.chars();
        let prefix = vec!['w', 'w', 'w', '.'];
        assert(prefix@ =~= www_prefix());
        crate::text::starts_at(chars.as_slice(), prefix.as_slice(), 0)
    }
}

/// `a` sorts strictly before `b`, comparing character by character, as
/// strings compare.
pub open spec fn text_less(a: Seq<char>, b: Seq<char>) -> bool
    decreases a.len(),
{
    if a.len() == 0 {
        b.len() > 0
    } else if b.len() == 0 {
        false
    } else if a[0] != b[0] {
        a[0] < b[0]
    } else {
        text_less(a.drop_first(), b.drop_first())
    }
}

pub proof fn lemma_text_less_total(a: Seq<char>, b: Seq<char>)
    ensures
        a == b || text_less(a, b) || text_less(b, a),
        !(text_less(a, b) && text_less(b, a)),
        !text_less(a, a),
    decreases a.len(),
{
    if a.len() > 0 && b.len() > 0 && a[0] == b[0] {
        lemma_text_less_total(a.drop_first(), b.drop_first());
        if a.drop_first() == b.drop_first() {
            assert forall|i: int| 0 <= i < a.len() implies a[i] == b[i] by {
                if i > 0 {
                    assert(a[i] == a.drop_first()[i - 1]);
                    assert(b[i] == b.drop_first()[i - 1]);
                }
            }
            assert(a =~= b);
        }
    }
    if a.len() > 0 {
        lemma_text_less_total(a.drop_first(), a.drop_first());
    }
}

pub proof fn lemma_text_less_transitive(a: Seq<char>, b: Seq<char>, c: Seq<char>)
    requires
        text_less(a, b),
        text_less(b, c),
    ensures
        text_less(a, c),
    decreases a.len(),
{
    if a.len() > 0 && b.len() > 0 && c.len() > 0 && a[0] == b[0] && b[0] == c[0] {
        lemma_text_less_transitive(a.drop_first(), b.drop_first(), c.drop_first());
    }
}

/// Compare two character strings: negative, zero or positive as `a` sorts
/// before, equal to, or after `b`.
pub fn compare_text(a: &[char], b: &[char]) -> (order: i8)
    ensures
        order < 0 <==> text_less(a@, b@),
        order == 0 <==> a@ == b@,
        order > 0 <==> text_less(b@, a@),
{
    let mut i: usize = 0;
    assert(a@.subrange(0, a@.len() as int) =~= a@);
    assert(b@.subrange(0, b@.len() as int) =~= b@);
    while i < a.len() && i < b.len() && a[i] == b[i]
        invariant
            i <= a@.len(),
            i <= b@.len(),
            a@.subrange(0, i as int) == b@.subrange(0, i as int),
            text_less(a@, b@) == text_less(
                a@.subrange(i as int, a@.len() as int),
                b@.subrange(i as int, b@.len() as int),
            ),
            text_less(b@, a@) == text_less(
                b@.subrange(i as int, b@.len() as int),
                a@.subrange(i as int, a@.len() as int),
            ),
        decreases a.len() - i,
    {
        let ghost ra = a@.subrange(i as int, a@.len() as int);
        let ghost rb = b@.subrange(i as int, b@.len() as int);
        assert(ra.drop_first() =~= a@.subrange(i + 1, a@.len() as int));
        assert(rb.drop_first() =~= b@.subrange(i + 1, b@.len() as int));
        assert(a@.subrange(0, i + 1) =~= a@.subrange(0, i as int).push(a@[i as int]));
        assert(b@.subrange(0, i + 1) =~= b@.subrange(0, i as int).push(b@[i as int]));
        i = i + 1;
    }
    let ghost ra = a@.subrange(i as int, a@.len() as int);
    let ghost rb = b@.subrange(i as int, b@.len() as int);
    proof {
        lemma_text_less_total(a@, b@);
    }
    if i < a.len() && i < b.len() {
        assert(ra[0] == a@[i as int] && rb[0] == b@[i as int]);
        assert(a@[i as int] != b@[i as int]);
        assert(a@ != b@ ==> true);
        if a[i] < b[i] {
            assert(a@ != b@) by {
                assert(a@[i as int] != b@[i as int]);
            }
            -1
        } else {
            assert(a@ != b@) by {
                assert(a@[i as int] != b@[i as int]);
            }
            1
        }
    } else if i < a.len() {
        assert(rb.len() == 0 && ra.len() > 0);
        assert(a@.len() != b@.len());
        1
    } else if i < b.len() {
        assert(ra.len() == 0 && rb.len() > 0);
        assert(a@.len() != b@.len());
        -1
    } else {
        assert(a@ =~= a@.subrange(0, i as int));
        assert(b@ =~= b@.subrange(0, i as int));
        0
    }
}

// ---------------------------------------------------------------------------
// Categories and sources
// ---------------------------------------------------------------------------

/// The nine preset categories. Named for what a person recognises, never for
/// a mechanism.
#[derive(Clone, Copy, PartialEq, Eq, PartialOrd, Ord, Hash, Debug, Structural)]
pub enum CategoryId {
    Adult,
    Ai,
    Gambling,
    Gaming,
    Messenger,
    News,
    Shopping,
    Social,
    Streaming,
}

/// A category's place in the fixed order of categories.
pub open spec fn category_index(category: CategoryId) -> int {
    match category {
        CategoryId::Adult => 0,
        CategoryId::Ai => 1,
        CategoryId::Gambling => 2,
        CategoryId::Gaming => 3,
        CategoryId::Messenger => 4,
        CategoryId::News => 5,
        CategoryId::Shopping => 6,
        CategoryId::Social => 7,
        CategoryId::Streaming => 8,
    }
}

/// The category at a place in the fixed order.
pub open spec fn category_at(index: int) -> CategoryId {
    if index <= 0 {
        CategoryId::Adult
    } else if index == 1 {
        CategoryId::Ai
    } else if index == 2 {
        CategoryId::Gambling
    } else if index == 3 {
        CategoryId::Gaming
    } else if index == 4 {
        CategoryId::Messenger
    } else if index == 5 {
        CategoryId::News
    } else if index == 6 {
        CategoryId::Shopping
    } else if index == 7 {
        CategoryId::Social
    } else {
        CategoryId::Streaming
    }
}

/// What a person sees each category called.
pub open spec fn category_label(category: CategoryId) -> Seq<char> {
    match category {
        CategoryId::Adult => "Adult"@,
        CategoryId::Ai => "AI"@,
        CategoryId::Gambling => "Gambling"@,
        CategoryId::Gaming => "Gaming"@,
        CategoryId::Messenger => "Messenger"@,
        CategoryId::News => "News"@,
        CategoryId::Shopping => "Shopping"@,
        CategoryId::Social => "Social"@,
        CategoryId::Streaming => "Streaming"@,
    }
}

/// The file name each category's shipped list lives under.
pub open spec fn category_slug(category: CategoryId) -> Seq<char> {
    match category {
        CategoryId::Adult => "adult"@,
        CategoryId::Ai => "ai"@,
        CategoryId::Gambling => "gambling"@,
        CategoryId::Gaming => "gaming"@,
        CategoryId::Messenger => "messenger"@,
        CategoryId::News => "news"@,
        CategoryId::Shopping => "shopping"@,
        CategoryId::Social => "social"@,
        CategoryId::Streaming => "streaming"@,
    }
}

impl CategoryId {
    /// Every category, in the fixed order.
    pub fn all() -> (all: Vec<CategoryId>)
        ensures
            all@.len() == 9,
            forall|i: int| 0 <= i < 9 ==> all@[i] == category_at(i),
    {
        vec![
            CategoryId::Adult,
            CategoryId::Ai,
            CategoryId::Gambling,
            CategoryId::Gaming,
            CategoryId::Messenger,
            CategoryId::News,
            CategoryId::Shopping,
            CategoryId::Social,
            CategoryId::Streaming,
        ]
    }

    /// The name a person sees.
    pub fn label(self) -> (label: &'static str)
        ensures
            label@ == category_label(self),
    {
        match self {
            CategoryId::Adult => "Adult",
            CategoryId::Ai => "AI",
            CategoryId::Gambling => "Gambling",
            CategoryId::Gaming => "Gaming",
            CategoryId::Messenger => "Messenger",
            CategoryId::News => "News",
            CategoryId::Shopping => "Shopping",
            CategoryId::Social => "Social",
            CategoryId::Streaming => "Streaming",
        }
    }

    /// The seed file this category's shipped contents live in.
    pub fn slug(self) -> (slug: &'static str)
        ensures
            slug@ == category_slug(self),
    {
        match self {
            CategoryId::Adult => "adult",
            CategoryId::Ai => "ai",
            CategoryId::Gambling => "gambling",
            CategoryId::Gaming => "gaming",
            CategoryId::Messenger => "messenger",
            CategoryId::News => "news",
            CategoryId::Shopping => "shopping",
            CategoryId::Social => "social",
            CategoryId::Streaming => "streaming",
        }
    }

    /// This category's place in the fixed order.
    pub fn index(self) -> (index: u8)
        ensures
            index == category_index(self),
    {
        match self {
            CategoryId::Adult => 0,
            CategoryId::Ai => 1,
            CategoryId::Gambling => 2,
            CategoryId::Gaming => 3,
            CategoryId::Messenger => 4,
            CategoryId::News => 5,
            CategoryId::Shopping => 6,
            CategoryId::Social => 7,
            CategoryId::Streaming => 8,
        }
    }
}

/// Why an entry is protected. An entry with no sources is removed, never
/// orphaned.
#[derive(Clone, Copy, PartialEq, Eq, PartialOrd, Ord, Hash, Debug, Structural)]
pub enum SourceRef {
    /// The person typed it themselves.
    Custom,
    /// It came from a preset category.
    Category(CategoryId),
    /// Cairn added it as the `www.` form of a root the person chose. It is
    /// never a *sole* reason to keep an entry: it is carried alongside
    /// whatever source produced the root.
    AutoWww,
}

/// A source's place in the order sources are kept in: the person's own, then
/// the categories in their order, then the generated `www.` form.
pub open spec fn source_rank(source: SourceRef) -> int {
    match source {
        SourceRef::Custom => 0,
        SourceRef::Category(category) => 1 + category_index(category),
        SourceRef::AutoWww => 10,
    }
}

/// The source at a rank.
pub open spec fn source_at(rank: int) -> SourceRef {
    if rank <= 0 {
        SourceRef::Custom
    } else if rank >= 10 {
        SourceRef::AutoWww
    } else {
        SourceRef::Category(category_at(rank - 1))
    }
}

proof fn lemma_source_rank(source: SourceRef)
    ensures
        0 <= source_rank(source) <= 10,
        source_at(source_rank(source)) == source,
{
}

fn source_rank_of(source: SourceRef) -> (rank: u8)
    ensures
        rank == source_rank(source),
{
    match source {
        SourceRef::Custom => 0,
        SourceRef::Category(category) => 1 + category.index(),
        SourceRef::AutoWww => 10,
    }
}

fn source_of_rank(rank: u8) -> (source: SourceRef)
    requires
        rank <= 10,
    ensures
        source == source_at(rank as int),
        source_rank(source) == rank,
{
    if rank == 0 {
        SourceRef::Custom
    } else if rank == 10 {
        SourceRef::AutoWww
    } else {
        let category = if rank == 1 {
            CategoryId::Adult
        } else if rank == 2 {
            CategoryId::Ai
        } else if rank == 3 {
            CategoryId::Gambling
        } else if rank == 4 {
            CategoryId::Gaming
        } else if rank == 5 {
            CategoryId::Messenger
        } else if rank == 6 {
            CategoryId::News
        } else if rank == 7 {
            CategoryId::Shopping
        } else if rank == 8 {
            CategoryId::Social
        } else {
            CategoryId::Streaming
        };
        SourceRef::Category(category)
    }
}

/// Sources kept in their order, each at most once.
pub open spec fn sources_in_order(sources: Seq<SourceRef>) -> bool {
    forall|i: int, j: int|
        0 <= i < j < sources.len() ==> source_rank(sources[i]) < source_rank(sources[j])
}

/// The sources of rank below `n` that are in `a` or `b`, in order.
pub open spec fn merged_below(a: Seq<SourceRef>, b: Seq<SourceRef>, n: int) -> Seq<SourceRef>
    decreases n,
{
    if n <= 0 {
        Seq::empty()
    } else {
        let before = merged_below(a, b, n - 1);
        if a.contains(source_at(n - 1)) || b.contains(source_at(n - 1)) {
            before.push(source_at(n - 1))
        } else {
            before
        }
    }
}

/// Every source in `a` or `b`, once each, in order.
pub open spec fn merged_sources(a: Seq<SourceRef>, b: Seq<SourceRef>) -> Seq<SourceRef> {
    merged_below(a, b, 11)
}

/// `sources` without `source`, the rest kept in order.
pub open spec fn without_source(sources: Seq<SourceRef>, source: SourceRef) -> Seq<SourceRef>
    decreases sources.len(),
{
    if sources.len() == 0 {
        sources
    } else {
        let before = without_source(sources.drop_last(), source);
        if sources.last() == source {
            before
        } else {
            before.push(sources.last())
        }
    }
}

// ---------------------------------------------------------------------------
// Protected entries and the trail
// ---------------------------------------------------------------------------

/// One protected entry, with every reason it is protected.
///
/// The sources are kept in order and without repeats, as a set would keep
/// them.
#[derive(Clone, PartialEq, Eq, Debug)]
pub struct ProtectedEntry {
    pub domain: Domain,
    pub sources: Vec<SourceRef>,
    /// True when Cairn generated this as the `www.` form of a root entry.
    pub auto_www: bool,
}

/// An entry as a value: its domain, its sources in order, and whether it is a
/// generated `www.` form.
pub type EntryView = (Seq<char>, Seq<SourceRef>, bool);

impl View for ProtectedEntry {
    type V = EntryView;

    open spec fn view(&self) -> EntryView {
        (self.domain@, self.sources@, self.auto_www)
    }
}

/// The views of a list of entries.
pub open spec fn entry_views(entries: Seq<ProtectedEntry>) -> Seq<EntryView> {
    entries.map_values(|entry: ProtectedEntry| entry@)
}

impl ProtectedEntry {
    pub fn new(domain: Domain, source: SourceRef) -> (entry: Self)
        ensures
            entry@ == (domain@, seq![source], source == SourceRef::AutoWww),
    {
        let auto_www = source == SourceRef::AutoWww;
        let sources = vec![source];
        ProtectedEntry { domain, sources, auto_www }
    }

    /// Drop one reason. Returns false when nothing needs this entry any more,
    /// which is the only condition under which it may be unprotected.
    #[must_use]
    pub fn remove_source(&mut self, source: &SourceRef) -> (still_needed: bool)
        ensures
            final(self)@ == (old(self)@.0, without_source(old(self)@.1, *source), old(self)@.2),
            still_needed == (final(self)@.1.len() > 0),
    {
        let mut kept: Vec<SourceRef> = Vec::new();
        let mut i: usize = 0;
        while i < self.sources.len()
            invariant
                i <= self.sources@.len(),
                self.sources@ == old(self).sources@,
                self.domain == old(self).domain,
                self.auto_www == old(self).auto_www,
                kept@ == without_source(self.sources@.subrange(0, i as int), *source),
            decreases self.sources.len() - i,
        {
            let s = self.sources[i];
            assert(self.sources@.subrange(0, i + 1).drop_last() =~= self.sources@.subrange(
                0,
                i as int,
            ));
            if s != *source {
                kept.push(s);
            }
            i = i + 1;
        }
        assert(self.sources@.subrange(0, self.sources@.len() as int) =~= self.sources@);
        self.sources = kept;
        self.sources.len() > 0
    }
}

/// Removing a source keeps the others, in order, and nothing else.
pub proof fn lemma_without_source(sources: Seq<SourceRef>, source: SourceRef)
    ensures
        sources_in_order(sources) ==> sources_in_order(without_source(sources, source)),
        forall|s: SourceRef| #[trigger]
            without_source(sources, source).contains(s) <==> sources.contains(s) && s != source,
        without_source(sources, source).len() <= sources.len(),
    decreases sources.len(),
{
    if sources.len() > 0 {
        let prefix = sources.drop_last();
        let last = sources.last();
        lemma_without_source(prefix, source);
        let shorter = without_source(prefix, source);
        let result = without_source(sources, source);
        assert forall|s: SourceRef| #[trigger] result.contains(s) <==> sources.contains(s) && s
            != source by {
            if sources.contains(s) && s != source {
                let k = choose|k: int| 0 <= k < sources.len() && sources[k] == s;
                if k < prefix.len() {
                    assert(prefix[k] == s);
                    assert(shorter.contains(s));
                    let m = choose|m: int| 0 <= m < shorter.len() && shorter[m] == s;
                    assert(result[m] == s);
                } else {
                    assert(result[result.len() - 1] == s);
                }
            }
            if result.contains(s) {
                let k = choose|k: int| 0 <= k < result.len() && result[k] == s;
                if k < shorter.len() {
                    assert(shorter[k] == s);
                    assert(shorter.contains(s));
                    let m = choose|m: int| 0 <= m < prefix.len() && prefix[m] == s;
                    assert(sources[m] == s);
                } else {
                    assert(sources[sources.len() - 1] == s);
                }
            }
        }
        if sources_in_order(sources) {
            assert(sources_in_order(prefix)) by {
                assert forall|i: int, j: int| 0 <= i < j < prefix.len() implies source_rank(
                    prefix[i],
                ) < source_rank(prefix[j]) by {
                    assert(prefix[i] == sources[i] && prefix[j] == sources[j]);
                }
            }
            if last != source {
                assert forall|i: int, j: int| 0 <= i < j < result.len() implies source_rank(
                    result[i],
                ) < source_rank(result[j]) by {
                    if j == result.len() - 1 {
                        assert(shorter.contains(result[i]));
                        let m = choose|m: int| 0 <= m < prefix.len() && prefix[m] == result[i];
                        assert(sources[m] == result[i]);
                    } else {
                        assert(result[i] == shorter[i] && result[j] == shorter[j]);
                    }
                }
            }
        }
    }
}

/// Merging keeps every source of either side, in order, and nothing else.
pub proof fn lemma_merged_below(a: Seq<SourceRef>, b: Seq<SourceRef>, n: int)
    requires
        0 <= n <= 11,
    ensures
        forall|i: int, j: int|
            0 <= i < j < merged_below(a, b, n).len() ==> source_rank(merged_below(a, b, n)[i])
                < source_rank(merged_below(a, b, n)[j]),
        forall|i: int|
            0 <= i < merged_below(a, b, n).len() ==> source_rank(#[trigger] merged_below(a, b, n)[i])
                < n,
        forall|s: SourceRef|
            source_rank(s) < n ==> (#[trigger] merged_below(a, b, n).contains(s) <==> (a.contains(s)
                || b.contains(s))),
    decreases n,
{
    if n > 0 {
        lemma_merged_below(a, b, n - 1);
        let before = merged_below(a, b, n - 1);
        let here = source_at(n - 1);
        lemma_source_rank(here);
        assert(source_rank(here) == n - 1);
        let result = merged_below(a, b, n);
        assert forall|s: SourceRef| source_rank(s) < n implies (#[trigger] result.contains(s) <==> (
        a.contains(s) || b.contains(s))) by {
            lemma_source_rank(s);
            if source_rank(s) == n - 1 {
                assert(s == here);
                if a.contains(s) || b.contains(s) {
                    assert(result[result.len() - 1] == s);
                } else if result.contains(s) {
                    let k = choose|k: int| 0 <= k < result.len() && result[k] == s;
                    assert(before[k] == s);
                }
            } else {
                if before.contains(s) {
                    let k = choose|k: int| 0 <= k < before.len() && before[k] == s;
                    assert(result[k] == s);
                }
                if result.contains(s) {
                    let k = choose|k: int| 0 <= k < result.len() && result[k] == s;
                    if k < before.len() {
                        assert(before[k] == s);
                    }
                }
            }
        }
    }
}

/// Every source in `a` or `b`, once each, in order.
fn merge_sources(a: &Vec<SourceRef>, b: &Vec<SourceRef>) -> (merged: Vec<SourceRef>)
    ensures
        merged@ == merged_sources(a@, b@),
{
    let mut merged: Vec<SourceRef> = Vec::new();
    let mut rank: u8 = 0;
    while rank <= 10
        invariant
            rank <= 11,
            merged@ == merged_below(a@, b@, rank as int),
        decreases 11 - rank,
    {
        let source = source_of_rank(rank);
        if contains_source(a, source) || contains_source(b, source) {
            merged.push(source);
        }
        rank = rank + 1;
    }
    merged
}

fn contains_source(sources: &Vec<SourceRef>, source: SourceRef) -> (found: bool)
    ensures
        found == sources@.contains(source),
{
    let mut i: usize = 0;
    while i < sources.len()
        invariant
            i <= sources@.len(),
            forall|j: int| 0 <= j < i ==> sources@[j] != source,
        decreases sources.len() - i,
    {
        if sources[i] == source {
            return true;
        }
        i = i + 1;
    }
    false
}

/// Everything a person has chosen to protect.
#[derive(Clone, PartialEq, Eq, Debug)]
pub struct Trail {
    pub entries: Vec<ProtectedEntry>,
    /// The categories switched on, in their order, each at most once.
    pub enabled_categories: Vec<CategoryId>,
}

impl View for Trail {
    type V = Seq<EntryView>;

    open spec fn view(&self) -> Seq<EntryView> {
        entry_views(self.entries@)
    }
}

/// Entries in order of their domains, each domain once, each entry's
/// reasons in order and without repeats.
pub open spec fn entries_well_formed(entries: Seq<EntryView>) -> bool {
    &&& forall|i: int, j: int|
        0 <= i < j < entries.len() ==> text_less(entries[i].0, entries[j].0)
    &&& forall|i: int|
        0 <= i < entries.len() ==> sources_in_order(#[trigger] entries[i].1)
}

/// The categories are kept in their order, each at most once.
pub open spec fn categories_in_order(categories: Seq<CategoryId>) -> bool {
    forall|i: int, j: int|
        0 <= i < j < categories.len() ==> category_index(categories[i]) < category_index(
            categories[j],
        )
}

/// How many entries sort before `domain`: where it goes when it is new.
pub open spec fn insertion_point(entries: Seq<EntryView>, domain: Seq<char>) -> int
    decreases entries.len(),
{
    if entries.len() == 0 {
        0
    } else {
        insertion_point(entries.drop_last(), domain) + if text_less(entries.last().0, domain) {
            1int
        } else {
            0int
        }
    }
}

/// The entries once `incoming` has been merged in: an entry for the same
/// domain gains its reasons in place, and a new domain goes where it sorts.
pub open spec fn merged_into(entries: Seq<EntryView>, incoming: EntryView) -> Seq<EntryView> {
    if exists|k: int| 0 <= k < entries.len() && entries[k].0 == incoming.0 {
        let k = choose|k: int| 0 <= k < entries.len() && entries[k].0 == incoming.0;
        entries.update(
            k,
            (incoming.0, merged_sources(entries[k].1, incoming.1), entries[k].2 && incoming.2),
        )
    } else {
        entries.insert(insertion_point(entries, incoming.0), incoming)
    }
}

/// What [`Trail::insert`] promises is a merge in the sense of [`merged_into`].
pub proof fn lemma_insert_merges(before: Seq<EntryView>, incoming: EntryView, after: Seq<EntryView>)
    requires
        forall|k: int|
            0 <= k < before.len() && before[k].0 == incoming.0 ==> after == before.update(
                k,
                (incoming.0, merged_sources(before[k].1, incoming.1), before[k].2 && incoming.2),
            ),
        (forall|k: int| 0 <= k < before.len() ==> before[k].0 != incoming.0) ==> after
            == before.insert(insertion_point(before, incoming.0), incoming),
    ensures
        after == merged_into(before, incoming),
{
    if exists|k: int| 0 <= k < before.len() && before[k].0 == incoming.0 {
        let k = choose|k: int| 0 <= k < before.len() && before[k].0 == incoming.0;
        assert(after == before.update(
            k,
            (incoming.0, merged_sources(before[k].1, incoming.1), before[k].2 && incoming.2),
        ));
    }
}

/// The entries after one reason has been dropped from each, and those no
/// longer needed have gone.
pub open spec fn entries_without(entries: Seq<EntryView>, source: SourceRef) -> Seq<EntryView>
    decreases entries.len(),
{
    if entries.len() == 0 {
        entries
    } else {
        let before = entries_without(entries.drop_last(), source);
        let last = entries.last();
        let sources = without_source(last.1, source);
        if sources.len() > 0 {
            before.push((last.0, sources, last.2))
        } else {
            before
        }
    }
}

impl Default for Trail {
    fn default() -> (trail: Self)
        ensures
            trail@ == Seq::<EntryView>::empty(),
            trail.enabled_categories@ == Seq::<CategoryId>::empty(),
    {
        let trail = Trail { entries: Vec::new(), enabled_categories: Vec::new() };
        assert(trail@ =~= Seq::<EntryView>::empty());
        trail
    }
}

/// Whether `domain` sorts before `target`.
fn sorts_before(domain: &Domain, target: &Vec<char>) -> (answer: bool)
    ensures
        answer == text_less(domain@, target@),
{
    let chars = domain.chars();
    compare_text(chars.as_slice(), target.as_slice()) < 0
}

/// Whether `domain` is `target`.
fn same_text(domain: &Domain, target: &Vec<char>) -> (answer: bool)
    ensures
        answer == (domain@ == target@),
{
    let chars = domain.chars();
    compare_text(chars.as_slice(), target.as_slice()) == 0
}

/// Whether `sources` are in order, each strictly after the one before.
fn sources_ordered(sources: &Vec<SourceRef>) -> (ordered: bool)
    ensures
        ordered == sources_in_order(sources@),
{
    let n = sources.len();
    let mut i: usize = 1;
    while i < n
        invariant
            1 <= i,
            n == sources@.len(),
            forall|a: int, b: int| 0 <= a < b < i && b < n ==> source_rank(sources@[a]) < source_rank(sources@[b]),
        decreases n - i,
    {
        if source_rank_of(sources[i - 1]) >= source_rank_of(sources[i]) {
            return false;
        }
        i = i + 1;
    }
    true
}

/// Whether `categories` are in their order, each at most once.
fn categories_ordered(categories: &Vec<CategoryId>) -> (ordered: bool)
    ensures
        ordered == categories_in_order(categories@),
{
    let n = categories.len();
    let mut i: usize = 1;
    while i < n
        invariant
            1 <= i,
            n == categories@.len(),
            forall|a: int, b: int| 0 <= a < b < i && b < n ==> category_index(categories@[a]) < category_index(
                categories@[b],
            ),
        decreases n - i,
    {
        if categories[i - 1].index() >= categories[i].index() {
            return false;
        }
        i = i + 1;
    }
    true
}

impl Trail {
    pub open spec fn well_formed(&self) -> bool {
        &&& entries_well_formed(self@)
        &&& categories_in_order(self.enabled_categories@)
    }

    /// Whether this trail keeps its invariant: entries in order of their
    /// domains, each domain once, each with its reasons in order, and the
    /// categories in their order. A trail read back from storage is checked
    /// before it is used.
    pub fn is_well_formed(&self) -> (answer: bool)
        ensures
            answer == self.well_formed(),
    {
        let ghost views = self@;
        let n = self.entries.len();
        let mut i: usize = 0;
        while i < n
            invariant
                n == self.entries@.len(),
                views == self@,
                views.len() == n,
                i <= n,
                forall|a: int, b: int| 0 <= a < b < i ==> text_less(views[a].0, views[b].0),
                forall|a: int| 0 <= a < i ==> sources_in_order(#[trigger] views[a].1),
            decreases n - i,
        {
            let entry = &self.entries[i];
            assert(views[i as int] == entry@);
            if !sources_ordered(&entry.sources) {
                proof {
                    assert(!sources_in_order(views[i as int].1));
                    assert(!entries_well_formed(views));
                }
                return false;
            }
            if i > 0 {
                let before = self.entries[i - 1].domain.chars();
                let here = entry.domain.chars();
                assert(views[i - 1] == self.entries@[i - 1]@);
                if compare_text(before.as_slice(), here.as_slice()) >= 0 {
                    proof {
                        assert(!text_less(views[i - 1].0, views[i as int].0));
                        assert(!entries_well_formed(views));
                    }
                    return false;
                }
                assert forall|a: int| 0 <= a < i implies text_less(views[a].0, views[i as int].0) by {
                    if a < i - 1 {
                        lemma_text_less_transitive(views[a].0, views[i - 1].0, views[i as int].0);
                    }
                }
            }
            i = i + 1;
        }
        categories_ordered(&self.enabled_categories)
    }

    /// Merge an entry in, keeping every reason both copies carried: one
    /// entry, however many sources.
    ///
    /// An entry already there keeps its place and gains the newcomer's
    /// reasons; it stays a generated `www.` form only if both were. A new
    /// entry goes where its domain sorts.
    pub fn insert(&mut self, incoming: ProtectedEntry)
        requires
            old(self).well_formed(),
            sources_in_order(incoming@.1),
        ensures
            final(self).well_formed(),
            final(self).enabled_categories@ == old(self).enabled_categories@,
            forall|k: int|
                0 <= k < old(self)@.len() && old(self)@[k].0 == incoming@.0 ==> final(self)@
                    == old(self)@.update(
                    k,
                    (
                        incoming@.0,
                        merged_sources(old(self)@[k].1, incoming@.1),
                        old(self)@[k].2 && incoming@.2,
                    ),
                ),
            (forall|k: int| 0 <= k < old(self)@.len() ==> old(self)@[k].0 != incoming@.0)
                ==> final(self)@ == old(self)@.insert(
                insertion_point(old(self)@, incoming@.0),
                incoming@,
            ),
    {
        let ghost before = self@;
        let target = incoming.domain.chars();
        let mut at: usize = 0;
        while at < self.entries.len() && sorts_before(&self.entries[at].domain, &target)
            invariant
                at <= self.entries@.len(),
                self@ == before,
                self.entries@.len() == before.len(),
                target@ == incoming@.0,
                forall|j: int| 0 <= j < at ==> text_less(before[j].0, incoming@.0),
            decreases self.entries.len() - at,
        {
            assert(self.entries@[at as int]@ == before[at as int]);
            at = at + 1;
        }
        let ghost k = at as int;
        assert(k < before.len() ==> !text_less(before[k].0, incoming@.0)) by {
            if k < before.len() {
                assert(self.entries@[k]@ == before[k]);
            }
        }
        let found = at < self.entries.len() && same_text(&self.entries[at].domain, &target);
        assert(found ==> before[k].0 == incoming@.0) by {
            if at < self.entries.len() {
                assert(self.entries@[k]@ == before[k]);
            }
        }
        if found {
            proof {
                assert forall|j: int| 0 <= j < before.len() && before[j].0 == incoming@.0 implies j
                    == k by {
                    lemma_text_less_total(incoming@.0, incoming@.0);
                    if j < k {
                        assert(text_less(before[j].0, incoming@.0));
                    } else if j > k {
                        assert(text_less(before[k].0, before[j].0));
                    }
                }
            }
            let mut entry = self.entries.remove(at);
            assert(entry@ == before[k]);
            let merged = merge_sources(&entry.sources, &incoming.sources);
            entry.sources = merged;
            entry.auto_www = entry.auto_www && incoming.auto_www;
            self.entries.insert(at, entry);
            assert(self@ =~= before.update(
                k,
                (incoming@.0, merged_sources(before[k].1, incoming@.1), before[k].2 && incoming@.2),
            ));
            proof {
                lemma_merged_below(before[k].1, incoming@.1, 11);
                let after = self@;
                assert forall|i: int| 0 <= i < after.len() implies sources_in_order(#[trigger] after[i].1) by {
                }
            }
        } else {
            proof {
                assert forall|j: int| k <= j < before.len() implies text_less(
                    incoming@.0,
                    before[j].0,
                ) by {
                    lemma_text_less_total(before[k].0, incoming@.0);
                    if j > k {
                        lemma_text_less_transitive(incoming@.0, before[k].0, before[j].0);
                    }
                }
                assert forall|j: int| 0 <= j < before.len() implies before[j].0 != incoming@.0 by {
                    if j < k {
                        lemma_text_less_total(before[j].0, incoming@.0);
                    } else {
                        lemma_text_less_total(incoming@.0, before[j].0);
                    }
                }
                assert forall|j: int| k <= j < before.len() implies !text_less(
                    before[j].0,
                    incoming@.0,
                ) by {
                    lemma_text_less_total(incoming@.0, before[j].0);
                }
                lemma_insertion_point(before, incoming@.0, k);
            }
            self.entries.insert(at, incoming);
            assert(self@ =~= before.insert(k, incoming@));
            proof {
                let after = self@;
                assert forall|i: int, j: int| 0 <= i < j < after.len() implies text_less(
                    after[i].0,
                    after[j].0,
                ) by {
                    if i < k && j == k {
                    } else if i == k && j > k {
                        assert(after[j] == before[j - 1]);
                    } else if i < k && j > k {
                        assert(after[j] == before[j - 1]);
                    } else if i > k {
                        assert(after[i] == before[i - 1] && after[j] == before[j - 1]);
                    }
                }
                assert forall|i: int| 0 <= i < after.len() implies sources_in_order(#[trigger] after[i].1) by {
                    if i > k {
                        assert(after[i] == before[i - 1]);
                    }
                }
            }
        }
    }

    /// Remove one reason from every entry that carries it, dropping only the
    /// entries nothing else needs.
    pub fn remove_source(&mut self, source: &SourceRef)
        requires
            old(self).well_formed(),
        ensures
            final(self).well_formed(),
            final(self)@ == entries_without(old(self)@, *source),
            final(self).enabled_categories@ == old(self).enabled_categories@,
    {
        let ghost before = self@;
        let mut remaining: Vec<ProtectedEntry> = Vec::new();
        std::mem::swap(&mut remaining, &mut self.entries);
        let ghost original = remaining@;
        assert(entry_views(original) == before);
        let total = remaining.len();
        let mut kept: Vec<ProtectedEntry> = Vec::new();
        let mut i: usize = 0;
        while i < total
            invariant
                i <= total,
                total == original.len(),
                entry_views(original) == before,
                remaining@ == original.subrange(i as int, total as int),
                entry_views(kept@) == entries_without(before.subrange(0, i as int), *source),
            decreases total - i,
        {
            let mut entry = remaining.remove(0);
            assert(entry == original[i as int]);
            assert(entry@ == before[i as int]);
            let ghost kept_before = kept@;
            let still_needed = entry.remove_source(source);
            assert(before.subrange(0, i + 1).drop_last() =~= before.subrange(0, i as int));
            if still_needed {
                kept.push(entry);
                assert(entry_views(kept@) =~= entry_views(kept_before).push(entry@));
            }
            assert(remaining@ =~= original.subrange(i + 1, total as int));
            i = i + 1;
        }
        assert(before.subrange(0, total as int) =~= before);
        self.entries = kept;
        proof {
            lemma_entries_without_well_formed(before, *source);
        }
    }

    /// The protected domains, in order.
    pub fn domains(&self) -> (domains: Vec<Domain>)
        ensures
            domain_views(domains@) == self@.map_values(|entry: EntryView| entry.0),
    {
        let mut domains: Vec<Domain> = Vec::new();
        let mut i: usize = 0;
        while i < self.entries.len()
            invariant
                i <= self.entries@.len(),
                domains@.len() == i,
                forall|j: int| 0 <= j < i ==> #[trigger] domains@[j]@ == self@[j].0,
            decreases self.entries.len() - i,
        {
            domains.push(self.entries[i].domain.clone());
            i = i + 1;
        }
        assert(domain_views(domains@) =~= self@.map_values(|entry: EntryView| entry.0));
        domains
    }
}

/// Where a new domain goes is after exactly the entries that sort before it.
proof fn lemma_insertion_point(entries: Seq<EntryView>, domain: Seq<char>, k: int)
    requires
        0 <= k <= entries.len(),
        forall|j: int| 0 <= j < k ==> text_less(entries[j].0, domain),
        forall|j: int| k <= j < entries.len() ==> !text_less(entries[j].0, domain),
    ensures
        insertion_point(entries, domain) == k,
    decreases entries.len(),
{
    if entries.len() > 0 {
        let prefix = entries.drop_last();
        if k == entries.len() {
            lemma_insertion_point(prefix, domain, k - 1);
        } else {
            lemma_insertion_point(prefix, domain, k);
        }
    }
}

/// What survives dropping a reason is an entry that was there.
proof fn lemma_entries_without_from(entries: Seq<EntryView>, source: SourceRef)
    ensures
        forall|i: int|
            0 <= i < entries_without(entries, source).len() ==> exists|m: int|
                0 <= m < entries.len() && entries[m].0 == #[trigger] entries_without(
                    entries,
                    source,
                )[i].0,
    decreases entries.len(),
{
    if entries.len() > 0 {
        let prefix = entries.drop_last();
        lemma_entries_without_from(prefix, source);
        let result = entries_without(entries, source);
        let shorter = entries_without(prefix, source);
        assert forall|i: int| 0 <= i < result.len() implies exists|m: int|
            0 <= m < entries.len() && entries[m].0 == #[trigger] result[i].0 by {
            if i < shorter.len() {
                assert(result[i] == shorter[i]);
                let m = choose|m: int| 0 <= m < prefix.len() && prefix[m].0 == shorter[i].0;
                assert(entries[m] == prefix[m]);
            } else {
                assert(entries[entries.len() - 1].0 == result[i].0);
            }
        }
    }
}

/// Dropping a reason from every entry keeps the trail well formed.
proof fn lemma_entries_without_well_formed(entries: Seq<EntryView>, source: SourceRef)
    requires
        entries_well_formed(entries),
    ensures
        entries_well_formed(entries_without(entries, source)),
    decreases entries.len(),
{
    if entries.len() > 0 {
        let prefix = entries.drop_last();
        assert(entries_well_formed(prefix)) by {
            assert forall|i: int| 0 <= i < prefix.len() implies sources_in_order(#[trigger] prefix[i].1) by {
                assert(prefix[i] == entries[i]);
            }
            assert forall|i: int, j: int| 0 <= i < j < prefix.len() implies text_less(
                prefix[i].0,
                prefix[j].0,
            ) by {
                assert(prefix[i] == entries[i] && prefix[j] == entries[j]);
                assert(text_less(entries[i].0, entries[j].0));
            }
        }
        lemma_entries_without_well_formed(prefix, source);
        lemma_entries_without_from(prefix, source);
        let last = entries.last();
        lemma_without_source(last.1, source);
        let shorter = entries_without(prefix, source);
        let result = entries_without(entries, source);
        if without_source(last.1, source).len() > 0 {
            assert forall|i: int| 0 <= i < result.len() implies sources_in_order(#[trigger] result[i].1) by {
                if i < shorter.len() {
                    assert(result[i] == shorter[i]);
                }
            }
            assert forall|i: int, j: int| 0 <= i < j < result.len() implies text_less(
                result[i].0,
                result[j].0,
            ) by {
                assert(result[i] == shorter[i]);
                if j < shorter.len() {
                    assert(result[j] == shorter[j]);
                } else {
                    let m = choose|m: int| 0 <= m < prefix.len() && prefix[m].0 == shorter[i].0;
                    assert(prefix[m] == entries[m]);
                    assert(entries[entries.len() - 1] == last);
                }
            }
        }
    }
}

// ---------------------------------------------------------------------------
// The hosts lines
// ---------------------------------------------------------------------------

/// Where protected names are sent.
///
/// Counted mode points them at loopback so the listener can note that a reach
/// happened and close the connection. Silent mode points them at an
/// unroutable address: the block is identical, nothing is recorded, and
/// nothing listens.
#[derive(Clone, Copy, PartialEq, Eq, Debug, Structural)]
pub enum ReachMode {
    Counted,
    Silent,
}

/// The IPv4 and IPv6 addresses protected names point at under `mode`.
pub open spec fn mode_addresses(mode: ReachMode) -> (Seq<char>, Seq<char>) {
    match mode {
        ReachMode::Counted => ("127.0.0.1"@, "::1"@),
        ReachMode::Silent => ("0.0.0.0"@, "::"@),
    }
}

impl ReachMode {
    fn addresses(self) -> (addresses: (&'static str, &'static str))
        ensures
            (addresses.0@, addresses.1@) == mode_addresses(self),
    {
        match self {
            ReachMode::Counted => ("127.0.0.1", "::1"),
            ReachMode::Silent => ("0.0.0.0", "::"),
        }
    }
}

/// How lines are terminated in the file being written. Cairn adopts whatever
/// the file already uses and never normalises it.
#[derive(Clone, Copy, PartialEq, Eq, Debug, Structural)]
pub enum LineEnding {
    Lf,
    Crlf,
}

/// The bytes that end a line under `ending`.
pub open spec fn eol_bytes(ending: LineEnding) -> Seq<u8> {
    match ending {
        LineEnding::Lf => seq![10u8],
        LineEnding::Crlf => seq![13u8, 10u8],
    }
}

impl LineEnding {
    pub fn as_bytes(self) -> (bytes: &'static [u8])
        ensures
            bytes@ == eol_bytes(self),
    {
        match self {
            LineEnding::Lf => {
                let bytes: &'static [u8] = &[10u8];
                assert(bytes@ =~= seq![10u8]);
                bytes
            },
            LineEnding::Crlf => {
                let bytes: &'static [u8] = &[13u8, 10u8];
                assert(bytes@ =~= seq![13u8, 10u8]);
                bytes
            },
        }
    }
}

/// The two lines that protect `domain`: one pointing it at the IPv4 address,
/// one at the IPv6 address.
pub open spec fn host_line_pair(domain: Seq<char>, mode: ReachMode, ending: LineEnding) -> Seq<u8> {
    let name = vstd::utf8::encode_utf8(domain);
    let (v4, v6) = mode_addresses(mode);
    vstd::utf8::encode_utf8(v4) + seq![32u8] + name + eol_bytes(ending) + vstd::utf8::encode_utf8(v6)
        + seq![32u8] + name + eol_bytes(ending)
}

/// The body of Cairn's hosts section for `domains`, in order.
pub open spec fn hosts_body(domains: Seq<Seq<char>>, mode: ReachMode, ending: LineEnding) -> Seq<u8>
    decreases domains.len(),
{
    if domains.len() == 0 {
        Seq::empty()
    } else {
        hosts_body(domains.drop_last(), mode, ending) + host_line_pair(domains.last(), mode, ending)
    }
}

/// The views of a list of domains.
pub open spec fn domain_views(domains: Seq<Domain>) -> Seq<Seq<char>> {
    domains.map_values(|domain: Domain| domain@)
}

fn push_bytes(out: &mut Vec<u8>, bytes: &[u8])
    ensures
        final(out)@ == old(out)@ + bytes@,
{
    let mut i: usize = 0;
    while i < bytes.len()
        invariant
            i <= bytes@.len(),
            out@ == old(out)@ + bytes@.subrange(0, i as int),
        decreases bytes.len() - i,
    {
        out.push(bytes[i]);
        assert(bytes@.subrange(0, i + 1) =~= bytes@.subrange(0, i as int).push(bytes@[i as int]));
        i = i + 1;
    }
    assert(bytes@.subrange(0, bytes@.len() as int) =~= bytes@);
}

/// Render the body of Cairn's hosts section: two lines per entry, IPv4 and
/// IPv6.
///
/// The pair is not optional. A name that resolves over IPv6 is not blocked by
/// an IPv4 line alone, so the line count is twice the entry count.
pub fn emit_hosts_body(domains: &[Domain], mode: ReachMode, ending: LineEnding) -> (body: Vec<u8>)
    ensures
        body@ == hosts_body(domain_views(domains@), mode, ending),
        names_in_body(body@) == crate::domain::readback::doubled(domain_views(domains@)),
{
    let (v4, v6) = mode.addresses();
    let eol = ending.as_bytes();
    let mut out: Vec<u8> = Vec::new();
    let space: &[u8] = &[32u8];
    assert(space@ =~= seq![32u8]);
    let mut i: usize = 0;
    while i < domains.len()
        invariant
            i <= domains@.len(),
            (v4@, v6@) == mode_addresses(mode),
            eol@ == eol_bytes(ending),
            space@ == seq![32u8],
            out@ == hosts_body(domain_views(domains@.subrange(0, i as int)), mode, ending),
            forall|j: int| 0 <= j < i ==> crate::domain::readback::writable_name(#[trigger] domains@[j]@),
        decreases domains.len() - i,
    {
        let domain = &domains[i];
        proof {
            use_type_invariant(domain);
        }
        let name = domains[i].as_str().as_bytes();
        push_bytes(&mut out, v4.as_bytes());
        push_bytes(&mut out, space);
        push_bytes(&mut out, name);
        push_bytes(&mut out, eol);
        push_bytes(&mut out, v6.as_bytes());
        push_bytes(&mut out, space);
        push_bytes(&mut out, name);
        push_bytes(&mut out, eol);
        let ghost next = domain_views(domains@.subrange(0, i + 1));
        assert(next.drop_last() =~= domain_views(domains@.subrange(0, i as int)));
        assert(next.last() == domains@[i as int]@);
        assert(out@ =~= hosts_body(next, mode, ending));
        i = i + 1;
    }
    assert(domains@.subrange(0, domains@.len() as int) =~= domains@);
    proof {
        let names = domain_views(domains@);
        assert forall|j: int| 0 <= j < names.len() implies crate::domain::readback::writable_name(#[trigger] names[j]) by {
            assert(names[j] == domains@[j]@);
        }
        crate::domain::readback::lemma_written_names_read_back(names, mode, ending);
    }
    out
}

/// What `String::from_utf8_lossy` makes of `bytes`: their text, with each
/// malformed sequence replaced by U+FFFD.
pub uninterp spec fn utf8_lossy(bytes: Seq<u8>) -> Seq<char>;

/// `String::from_utf8_lossy`. Trusted to give the named result, and, as its
/// documentation states, to give the text unchanged when the bytes are valid
/// UTF-8; how malformed bytes are replaced is not stated here.
#[verifier::external_body]
fn decode_lossy(bytes: &[u8]) -> (text: String)
    ensures
        text@ == utf8_lossy(bytes@),
        vstd::utf8::valid_utf8(bytes@) ==> text@ == vstd::utf8::decode_utf8(bytes@),
{
    String::from_utf8_lossy(bytes).into_owned()
}

/// The words of `s`, as `str::split_whitespace` finds them.
pub open spec fn words(s: Seq<char>) -> Seq<Seq<char>>
    decreases s.len(),
{
    if s.len() == 0 {
        Seq::empty()
    } else {
        let before = words(s.drop_last());
        let c = s.last();
        if is_space(c) {
            before
        } else if s.len() >= 2 && !is_space(s[s.len() - 2]) {
            before.update(before.len() - 1, before.last().push(c))
        } else {
            before.push(seq![c])
        }
    }
}

/// The text of a line: its characters when it is valid UTF-8, and what
/// lossy decoding makes of it otherwise.
pub open spec fn line_text(line: Seq<u8>) -> Seq<char> {
    if vstd::utf8::valid_utf8(line) {
        vstd::utf8::decode_utf8(line)
    } else {
        utf8_lossy(line)
    }
}

/// The name a hosts line maps, if it maps one: the line's second word, unless
/// the line is blank or a comment.
pub open spec fn name_on_line(line: Seq<u8>) -> Option<Seq<char>> {
    let text = trim(line_text(line));
    if text.len() == 0 || text[0] == '#' {
        None
    } else if words(text).len() >= 2 {
        Some(words(text)[1])
    } else {
        None
    }
}

/// The names on `lines`, in order.
pub open spec fn names_on_lines(lines: Seq<Seq<u8>>) -> Seq<Seq<char>>
    decreases lines.len(),
{
    if lines.len() == 0 {
        Seq::empty()
    } else {
        let before = names_on_lines(lines.drop_last());
        match name_on_line(lines.last()) {
            Some(name) => before.push(name),
            None => before,
        }
    }
}

/// The names in a hosts body: its lines are cut at each line feed.
pub open spec fn names_in_body(body: Seq<u8>) -> Seq<Seq<char>> {
    names_on_lines(split_on(body, 10u8))
}

/// The words of a line, found one character at a time.
fn words_of(text: &[char]) -> (found: Vec<Vec<char>>)
    ensures
        found@.len() == words(text@).len(),
        forall|i: int| 0 <= i < found@.len() ==> #[trigger] found@[i]@ == words(text@)[i],
{
    let mut found: Vec<Vec<char>> = Vec::new();
    let mut current: Vec<char> = Vec::new();
    let mut in_word = false;
    let mut i: usize = 0;
    while i < text.len()
        invariant
            i <= text@.len(),
            in_word == (i > 0 && !is_space(text@[i - 1])),
            in_word ==> found@.len() + 1 == words(text@.subrange(0, i as int)).len()
                && current@ == words(text@.subrange(0, i as int)).last(),
            !in_word ==> found@.len() == words(text@.subrange(0, i as int)).len(),
            forall|j: int| 0 <= j < found@.len() ==> #[trigger] found@[j]@ == words(
                text@.subrange(0, i as int),
            )[j],
        decreases text.len() - i,
    {
        let c = text[i];
        let ghost prefix = text@.subrange(0, i as int);
        let ghost next = text@.subrange(0, i + 1);
        assert(next.drop_last() =~= prefix);
        assert(next.last() == c);
        if is_space_char(c) {
            if in_word {
                found.push(current);
                current = Vec::new();
            }
            in_word = false;
        } else if in_word {
            assert(next[next.len() - 2] == text@[i - 1]);
            current.push(c);
        } else {
            current = Vec::new();
            current.push(c);
            in_word = true;
            assert(current@ =~= seq![c]);
        }
        i = i + 1;
    }
    assert(text@.subrange(0, text@.len() as int) =~= text@);
    if in_word {
        found.push(current);
    }
    found
}

/// The name on one hosts line, if it maps one.
fn name_of_line(line: &[u8]) -> (name: Option<String>)
    ensures
        match name {
            Some(name) => name_on_line(line@) == Some(name@),
            None => name_on_line(line@) == None::<Seq<char>>,
        },
{
    let text = decode_lossy(line);
    let chars = chars_of(text.as_str());
    let trimmed = trim_chars(chars.as_slice());
    if trimmed.len() == 0 || trimmed[0] == '#' {
        return None;
    }
    let words = words_of(trimmed.as_slice());
    if words.len() >= 2 {
        Some(string_of(words[1].as_slice()))
    } else {
        None
    }
}

pub(crate) fn slice_bytes(bytes: &[u8], from: usize, to: usize) -> (piece: Vec<u8>)
    requires
        from <= to <= bytes@.len(),
    ensures
        piece@ == bytes@.subrange(from as int, to as int),
{
    let mut piece: Vec<u8> = Vec::new();
    let mut i = from;
    while i < to
        invariant
            from <= i <= to,
            to <= bytes@.len(),
            piece@ == bytes@.subrange(from as int, i as int),
        decreases to - i,
    {
        piece.push(bytes[i]);
        assert(bytes@.subrange(from as int, i + 1) =~= bytes@.subrange(from as int, i as int).push(
            bytes@[i as int],
        ));
        i = i + 1;
    }
    piece
}

/// The views of a list of strings.
pub open spec fn string_views(strings: Seq<String>) -> Seq<Seq<char>> {
    strings.map_values(|s: String| s@)
}

/// Read back the domains Cairn's section actually contains, so protection can
/// be reported from what is on the machine rather than from what was written.
pub fn parse_hosts_body(body: &[u8]) -> (names: Vec<String>)
    ensures
        string_views(names@) == names_in_body(body@),
{
    let mut names: Vec<String> = Vec::new();
    let mut start: usize = 0;
    let mut i: usize = 0;
    assert(string_views(names@) =~= names_on_lines(
        split_on(body@.subrange(0, 0), 10u8).drop_last(),
    )) by {
        assert(body@.subrange(0, 0) =~= Seq::<u8>::empty());
        assert(split_on(Seq::<u8>::empty(), 10u8) =~= seq![Seq::<u8>::empty()]);
    }
    while i < body.len()
        invariant
            start <= i <= body@.len(),
            start == 0 || body@[start - 1] == 10,
            forall|k: int| start <= k < i ==> body@[k] != 10,
            string_views(names@) == names_on_lines(
                split_on(body@.subrange(0, start as int), 10u8).drop_last(),
            ),
        decreases body.len() - i,
    {
        if body[i] == 10u8 {
            let line = slice_bytes(body, start, i);
            let ghost done = split_on(body@.subrange(0, start as int), 10u8).drop_last();
            proof {
                crate::text::lemma_split_extend(body@, 10u8, start as int, i as int);
                let upto = body@.subrange(0, i + 1);
                assert(upto.drop_last() =~= body@.subrange(0, i as int));
                assert(upto.last() == 10u8);
                assert(split_on(upto, 10u8).drop_last() =~= done.push(line@));
                assert(done.push(line@).drop_last() =~= done);
            }
            let ghost names_before = names@;
            match name_of_line(line.as_slice()) {
                Some(name) => {
                    names.push(name);
                    assert(string_views(names@) =~= string_views(names_before).push(name@));
                },
                None => {},
            }
            start = i + 1;
        }
        i = i + 1;
    }
    let line = slice_bytes(body, start, body.len());
    let ghost done = split_on(body@.subrange(0, start as int), 10u8).drop_last();
    proof {
        crate::text::lemma_split_extend(body@, 10u8, start as int, body@.len() as int);
        assert(body@.subrange(0, body@.len() as int) =~= body@);
        assert(done.push(line@).drop_last() =~= done);
    }
    let ghost names_before = names@;
    match name_of_line(line.as_slice()) {
        Some(name) => {
            names.push(name);
            assert(string_views(names@) =~= string_views(names_before).push(name@));
        },
        None => {},
    }
    names
}

} // verus!
