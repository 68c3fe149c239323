//! The files Cairn may change on the machine, and the digest it records of
//! their contents.
use vstd::prelude::*;
use crate::text::{push_str, string_of};

verus! {

/// A system file Cairn may change. There is exactly one.
#[derive(Clone, Copy, PartialEq, Eq, Debug, Structural)]
pub enum Target {
    SystemHosts,
}

/// How a target is named to a person.
pub open spec fn target_label(target: Target) -> Seq<char> {
    match target {
        Target::SystemHosts => "the system's list of site addresses"@,
    }
}

impl Target {
    /// How this target is named to a person.
    pub fn label(self) -> (label: &'static str)
        ensures
            label@ == target_label(self),
    {
        match self {
            Target::SystemHosts => "the system's list of site addresses",
        }
    }
}

/// One change Cairn made to the machine, as the inventory records it.
#[derive(Clone, Debug)]
pub enum Change {
    /// A copy of `target` was taken; `sha256` is the digest of what it holds.
    BackupWritten { target: Target, captured_at: i64, sha256: String },
    /// Cairn's section was written into `target`, with or without a line
    /// ending of Cairn's own in front of it.
    HostsSection { target: Target, applied_at: i64, separator_added: bool },
    /// The background component was installed.
    HelperInstalled { installed_at: i64 },
}

/// How a change is named in a teardown report.
pub open spec fn change_label(change: Change) -> Seq<char> {
    match change {
        Change::BackupWritten { target, .. } => "the copy Cairn kept of "@ + target_label(target),
        Change::HostsSection { target, .. } => "Cairn's section in "@ + target_label(target),
        Change::HelperInstalled { .. } => "Cairn's background component"@,
    }
}

impl Change {
    /// How this change is named in a teardown report.
    pub fn label(&self) -> (text: String)
        ensures
            text@ == change_label(*self),
    {
        let mut out: Vec<char> = Vec::new();
        match self {
            Change::BackupWritten { target, .. } => {
                push_str(&mut out, "the copy Cairn kept of ");
                push_str(&mut out, target.label());
            },
            Change::HostsSection { target, .. } => {
                push_str(&mut out, "Cairn's section in ");
                push_str(&mut out, target.label());
            },
            Change::HelperInstalled { .. } => {
                push_str(&mut out, "Cairn's background component");
            },
        }
        string_of(out.as_slice())
    }
}

/// `change` is the copy taken of `target`.
pub open spec fn is_backup_of(change: Change, target: Target) -> bool {
    change matches Change::BackupWritten { target: recorded, .. } && recorded == target
}

/// `change` is Cairn's section written into `target`.
pub open spec fn is_section_of(change: Change, target: Target) -> bool {
    change matches Change::HostsSection { target: recorded, .. } && recorded == target
}

/// Where the first copy of `target` is recorded among `changes`, if any.
pub open spec fn first_backup(changes: Seq<Change>, target: Target, at: Option<usize>) -> bool {
    match at {
        Some(k) => k < changes.len() && is_backup_of(changes[k as int], target) && forall|j: int|
            0 <= j < k ==> !is_backup_of(#[trigger] changes[j], target),
        None => forall|j: int| 0 <= j < changes.len() ==> !is_backup_of(#[trigger] changes[j], target),
    }
}

/// Where the first section in `target` is recorded among `changes`, if any.
pub open spec fn first_section(changes: Seq<Change>, target: Target, at: Option<usize>) -> bool {
    match at {
        Some(k) => k < changes.len() && is_section_of(changes[k as int], target) && forall|j: int|
            0 <= j < k ==> !is_section_of(#[trigger] changes[j], target),
        None => forall|j: int| 0 <= j < changes.len() ==> !is_section_of(#[trigger] changes[j], target),
    }
}

/// The record of every change Cairn made to the machine, in the order made.
pub struct Inventory {
    pub changes: Vec<Change>,
}

impl Inventory {
    /// Where the first copy of `target` is recorded, if one is.
    pub fn backup_record(&self, target: Target) -> (at: Option<usize>)
        ensures
            first_backup(self.changes@, target, at),
    {
        let mut i: usize = 0;
        while i < self.changes.len()
            invariant
                i <= self.changes@.len(),
                forall|j: int| 0 <= j < i ==> !is_backup_of(#[trigger] self.changes@[j], target),
            decreases self.changes.len() - i,
        {
            let found = match &self.changes[i] {
                Change::BackupWritten { target: recorded, .. } => *recorded == target,
                _ => false,
            };
            if found {
                return Some(i);
            }
            i = i + 1;
        }
        None
    }

    /// Where Cairn's section in `target` is first recorded, if it is.
    pub fn hosts_section(&self, target: Target) -> (at: Option<usize>)
        ensures
            first_section(self.changes@, target, at),
    {
        let mut i: usize = 0;
        while i < self.changes.len()
            invariant
                i <= self.changes@.len(),
                forall|j: int| 0 <= j < i ==> !is_section_of(#[trigger] self.changes@[j], target),
            decreases self.changes.len() - i,
        {
            let found = match &self.changes[i] {
                Change::HostsSection { target: recorded, .. } => *recorded == target,
                _ => false,
            };
            if found {
                return Some(i);
            }
            i = i + 1;
        }
        None
    }

    /// Whether a copy of `target` is recorded.
    pub fn has_backup(&self, target: Target) -> (recorded: bool)
        ensures
            recorded == exists|j: int| 0 <= j < self.changes@.len() && is_backup_of(#[trigger] self.changes@[j], target),
    {
        match self.backup_record(target) {
            Some(at) => {
                assert(is_backup_of(self.changes@[at as int], target));
                true
            },
            None => false,
        }
    }

    /// Whether the line ending in front of Cairn's section in `target` was
    /// Cairn's own, as the first record of that section says; with no
    /// section recorded, it was not.
    pub fn separator_added(&self, target: Target) -> (added: bool)
        ensures
            exists|at: Option<usize>| #[trigger] first_section(self.changes@, target, at) && added == match at {
                Some(k) => self.changes@[k as int] matches Change::HostsSection { separator_added: true, .. },
                None => false,
            },
    {
        let at = self.hosts_section(target);
        match at {
            Some(k) => match &self.changes[k] {
                Change::HostsSection { separator_added, .. } => *separator_added,
                _ => false,
            },
            None => false,
        }
    }

    /// Where the first copy of `target` is recorded, with the digest
    /// recorded for it.
    pub fn backup_digest(&self, target: Target) -> (found: Option<(usize, String)>)
        ensures
            exists|at: Option<usize>| #[trigger] first_backup(self.changes@, target, at) && match at {
                Some(k) => found matches Some((place, digest)) && place == k && (self.changes@[k as int] matches Change::BackupWritten { sha256, .. } && digest@ == sha256@),
                None => found is None,
            },
    {
        let at = self.backup_record(target);
        match at {
            Some(k) => match &self.changes[k] {
                Change::BackupWritten { sha256, .. } => Some((k, sha256.clone())),
                _ => vstd::pervasive::unreached(),
            },
            None => None,
        }
    }
}

/// `a` and `b` record the same change: the same kind, with the same fields.
pub open spec fn same_change(a: Change, b: Change) -> bool {
    match (a, b) {
        (
            Change::BackupWritten { target: t1, captured_at: c1, sha256: s1 },
            Change::BackupWritten { target: t2, captured_at: c2, sha256: s2 },
        ) => t1 == t2 && c1 == c2 && s1@ == s2@,
        (
            Change::HostsSection { target: t1, applied_at: a1, separator_added: s1 },
            Change::HostsSection { target: t2, applied_at: a2, separator_added: s2 },
        ) => t1 == t2 && a1 == a2 && s1 == s2,
        (Change::HelperInstalled { installed_at: i1 }, Change::HelperInstalled { installed_at: i2 }) => i1 == i2,
        _ => false,
    }
}

/// A record that is not of `change`.
pub open spec fn other_than(change: Change) -> spec_fn(Change) -> bool {
    |kept: Change| !same_change(kept, change)
}

/// Whether `a` and `b` record the same change.
pub fn is_same_change(a: &Change, b: &Change) -> (same: bool)
    ensures
        same == same_change(*a, *b),
{
    match (a, b) {
        (
            Change::BackupWritten { target: t1, captured_at: c1, sha256: s1 },
            Change::BackupWritten { target: t2, captured_at: c2, sha256: s2 },
        ) => *t1 == *t2 && *c1 == *c2 && crate::text::same_chars(&crate::text::chars_of(s1.as_str()), &crate::text::chars_of(s2.as_str())),
        (
            Change::HostsSection { target: t1, applied_at: a1, separator_added: s1 },
            Change::HostsSection { target: t2, applied_at: a2, separator_added: s2 },
        ) => *t1 == *t2 && *a1 == *a2 && *s1 == *s2,
        (Change::HelperInstalled { installed_at: i1 }, Change::HelperInstalled { installed_at: i2 }) => *i1 == *i2,
        _ => false,
    }
}

impl Inventory {
    /// Forget `change`: every record of it goes, and every other record
    /// stays, in order.
    pub fn forget(&mut self, change: &Change)
        ensures
            final(self).changes@ == old(self).changes@.filter(other_than(*change)),
    {
        let ghost before = self.changes@;
        let _ = self.changes.len();
        let mut rest: Vec<Change> = Vec::new();
        std::mem::swap(&mut rest, &mut self.changes);
        let mut kept: Vec<Change> = Vec::new();
        let mut i: usize = 0;
        while rest.len() > 0
            invariant
                i <= before.len(),
                rest@ == before.subrange(i as int, before.len() as int),
                kept@ == before.subrange(0, i as int).filter(other_than(*change)),
                before.len() <= usize::MAX,
            decreases rest.len(),
        {
            let next = rest.remove(0);
            assert(next == before[i as int]);
            assert(before.subrange(0, i + 1).drop_last() =~= before.subrange(0, i as int));
            assert(before.subrange(0, i + 1).last() == before[i as int]);
            assert(rest@ =~= before.subrange(i + 1, before.len() as int));
            let ghost done = before.subrange(0, i + 1);
            proof {
                reveal(Seq::filter);
            }
            if !is_same_change(&next, change) {
                kept.push(next);
                assert(done.filter(other_than(*change)) == done.drop_last().filter(other_than(*change)).push(
                    done.last(),
                ));
            } else {
                assert(done.filter(other_than(*change)) == done.drop_last().filter(other_than(*change)));
            }
            i = i + 1;
        }
        assert(before.subrange(0, before.len() as int) =~= before);
        self.changes = kept;
    }

    /// The places of the changes in the order they are undone: the last
    /// made first.
    pub fn teardown_order(&self) -> (order: Vec<usize>)
        ensures
            order@.len() == self.changes@.len(),
            forall|k: int| 0 <= k < order@.len() ==> order@[k] == self.changes@.len() - 1 - k,
    {
        let n = self.changes.len();
        let mut order: Vec<usize> = Vec::new();
        let mut k: usize = 0;
        while k < n
            invariant
                k <= n,
                n == self.changes@.len(),
                order@.len() == k,
                forall|j: int| 0 <= j < k ==> order@[j] == n - 1 - j,
            decreases n - k,
        {
            order.push(n - 1 - k);
            k = k + 1;
        }
        order
    }
}

/// The SHA-256 of a byte string: thirty-two bytes, a function of the bytes
/// alone. What it is takes pages to state, so it is only named.
pub uninterp spec fn sha256_of(bytes: Seq<u8>) -> Seq<u8>;

/// `sha2::Sha256::digest`: the SHA-256 of `bytes`, as its thirty-two bytes.
#[verifier::external_body]
fn sha256_digest(bytes: &[u8]) -> (digest: [u8; 32])
    ensures
        digest@ == sha256_of(bytes@),
{
    <sha2::Sha256 as sha2::Digest>::digest(bytes).into()
}

/// The sixteen digits of lowercase hexadecimal, in order.
pub open spec fn hex_digits() -> Seq<char> {
    seq!['0', '1', '2', '3', '4', '5', '6', '7', '8', '9', 'a', 'b', 'c', 'd', 'e', 'f']
}

/// `bytes` in lowercase hexadecimal: two digits a byte, high half first.
pub open spec fn lower_hex(bytes: Seq<u8>) -> Seq<char>
    decreases bytes.len(),
{
    if bytes.len() == 0 {
        Seq::empty()
    } else {
        lower_hex(bytes.drop_last()) + seq![
            hex_digits()[bytes.last() as int / 16],
            hex_digits()[bytes.last() as int % 16],
        ]
    }
}

/// The digest Cairn records for a file's contents: their SHA-256 in
/// lowercase hexadecimal.
pub open spec fn digest_text(bytes: Seq<u8>) -> Seq<char> {
    lower_hex(sha256_of(bytes))
}

/// `bytes` written out in lowercase hexadecimal.
pub fn to_lower_hex(bytes: &[u8]) -> (hex: String)
    ensures
        hex@ == lower_hex(bytes@),
{
    let digits: [char; 16] = ['0', '1', '2', '3', '4', '5', '6', '7', '8', '9', 'a', 'b', 'c', 'd', 'e', 'f'];
    assert(digits@ =~= hex_digits());
    let mut out: Vec<char> = Vec::new();
    let mut i: usize = 0;
    while i < bytes.len()
        invariant
            i <= bytes@.len(),
            digits@ == hex_digits(),
            out@ == lower_hex(bytes@.subrange(0, i as int)),
        decreases bytes.len() - i,
    {
        let byte = bytes[i];
        assert(bytes@.subrange(0, i + 1).drop_last() =~= bytes@.subrange(0, i as int));
        assert(bytes@.subrange(0, i + 1).last() == byte);
        out.push(digits[(byte / 16) as usize]);
        out.push(digits[(byte % 16) as usize]);
        i = i + 1;
    }
    assert(bytes@.subrange(0, bytes@.len() as int) =~= bytes@);
    string_of(out.as_slice())
}

/// The SHA-256 of `bytes`, in lowercase hexadecimal: the digest Cairn
/// records for a file's contents.
pub fn sha256_hex(bytes: &[u8]) -> (hex: String)
    ensures
        hex@ == digest_text(bytes@),
{
    let digest = sha256_digest(bytes);
    to_lower_hex(&digest)
}

} // verus!
