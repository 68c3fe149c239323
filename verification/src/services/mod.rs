//! What each platform must be able to do, stated once.
//!
//! Every trait here can answer [`Capability::Unsupported`], and that answer is
//! a real one: a platform that cannot do something is reported honestly rather
//! than treated as a silent success or a hard error. No platform type crosses
//! this boundary: these traits deal in domains, bytes and outcomes.
pub mod layers;

use vstd::prelude::*;
use crate::domain::entries::Domain;
use crate::text::push_str;

verus! {

/// Whether a platform can do a thing at all.
#[derive(Clone, PartialEq, Eq, Debug)]
pub enum Capability {
    Available,
    /// Not possible on this platform, in words that can be shown to a person.
    Unsupported { because: String },
}

impl Capability {
    pub fn is_available(&self) -> (available: bool)
        ensures
            available == (*self is Available),
    {
        match self {
            Capability::Available => true,
            Capability::Unsupported { .. } => false,
        }
    }

    pub fn unsupported(because: String) -> (capability: Capability)
        ensures
            capability matches Capability::Unsupported { because: reason } && reason@ == because@,
    {
        Capability::Unsupported { because }
    }
}

/// Something Cairn could not do, in words a person can read.
#[derive(Clone, PartialEq, Eq, Debug)]
pub struct Trouble {
    pub message: String,
}

impl Trouble {
    pub fn new(message: String) -> (trouble: Trouble)
        ensures
            trouble.message@ == message@,
    {
        Trouble { message }
    }

    /// The sentence, as written.
    pub fn to_string(&self) -> (text: String)
        ensures
            text@ == self.message@,
    {
        self.message.clone()
    }
}

/// A fixed sentence as a trouble.
pub fn trouble_saying(message: &str) -> (trouble: Trouble)
    ensures
        trouble.message@ == message@,
{
    let mut text: Vec<char> = Vec::new();
    push_str(&mut text, message);
    assert(text@ =~= message@);
    Trouble { message: crate::text::string_of(text.as_slice()) }
}

/// The result of asking a platform for something.
pub type Outcome<T> = Result<T, Trouble>;

/// Whether the privileged helper is installed and reachable.
#[derive(Clone, PartialEq, Eq, Debug)]
pub enum HelperStatus {
    NotInstalled,
    Installed { version: String },
    /// This platform cannot run the helper: repair will be limited, and the
    /// limit is stated in the interface rather than hidden.
    Unsupported { because: String },
}

/// Installs and manages the privileged helper. Elevation happens here and
/// nowhere else.
pub trait ElevationService {
    fn helper_status(&self) -> HelperStatus;

    fn install_helper(&self) -> Outcome<HelperStatus>;

    /// Removing the helper is part of teardown: its installation is an
    /// inventoried change like any other.
    fn uninstall_helper(&self) -> Outcome<Removal>;
}

/// What a removal actually left behind. Residue is reported, never rounded
/// down to success.
#[derive(Clone, PartialEq, Eq, Debug)]
pub struct Removal {
    pub removed: bool,
    pub residue: Vec<String>,
}

impl Default for Removal {
    fn default() -> (removal: Removal)
        ensures
            !removal.removed,
            removal.residue@.len() == 0,
    {
        Removal { removed: false, residue: Vec::new() }
    }
}

impl Removal {
    pub fn clean() -> (removal: Removal)
        ensures
            removal.removed,
            removal.residue@.len() == 0,
    {
        Removal { removed: true, residue: Vec::new() }
    }

    pub fn is_clean(&self) -> (clean: bool)
        ensures
            clean == (self.removed && self.residue@.len() == 0),
    {
        self.removed && self.residue.len() == 0
    }
}

/// Reads system state. Every write goes through the helper.
pub trait HostsService {
    fn read_raw(&self) -> Outcome<Vec<u8>>;

    fn section_present(&self) -> Outcome<bool>;

    /// Compare what is on the machine with what should be there. This is the
    /// only thing protection state may be derived from.
    fn verify(&self, expected: &[Domain]) -> Outcome<Verification>;
}

/// What was actually found in the system file, not what was written.
#[derive(Clone, PartialEq, Eq, Debug)]
pub struct Verification {
    pub section_present: bool,
    /// Distinct domains found, counted from the file, not lines.
    pub entry_count: usize,
    /// Expected entries that were not there.
    pub missing: Vec<Domain>,
    /// Entries in Cairn's section that are not expected any more.
    pub unexpected: Vec<String>,
}

impl Verification {
    /// The section is there, with nothing missing and nothing unexpected.
    pub open spec fn agrees(&self) -> bool {
        self.section_present && self.missing@.len() == 0 && self.unexpected@.len() == 0
    }

    pub fn matches(&self) -> (matches: bool)
        ensures
            matches == self.agrees(),
    {
        self.section_present && self.missing.len() == 0 && self.unexpected.len() == 0
    }
}

/// Flushing the resolver cache after a change. Failure is non-fatal, and is
/// reported rather than swallowed.
pub trait DnsFlushService {
    fn flush(&self) -> FlushOutcome;
}

#[derive(Clone, PartialEq, Eq, Debug)]
pub enum FlushOutcome {
    Flushed { mechanism: String },
    /// Nothing on this machine is caching, so there was nothing to clear.
    NothingCaching,
    /// The change still takes effect as caches expire.
    NotFlushed { mechanism: String, note: String },
}

/// The key for the reach history, held by the platform's own credential
/// store.
pub trait CredentialStore {
    fn get_or_create_history_key(&self) -> Result<Key, KeyUnavailable>;

    fn delete_history_key(&self) -> Outcome<()>;
}

/// A 256-bit key. It has no printed form at all, so it cannot end up in a
/// diagnostic by accident.
#[derive(Clone, PartialEq, Eq)]
pub struct Key([u8; 32]);

impl View for Key {
    type V = Seq<u8>;

    /// The key's bytes.
    closed spec fn view(&self) -> Seq<u8> {
        self.0@
    }
}

impl Key {
    pub fn from_bytes(bytes: [u8; 32]) -> (key: Key)
        ensures
            key@ == bytes@,
    {
        Key(bytes)
    }

    pub fn expose(&self) -> (bytes: &[u8; 32])
        ensures
            bytes@ == self@,
    {
        &self.0
    }
}

/// Why history cannot be opened. Every variant means the same thing in
/// practice: keep protecting, keep recording, never overwrite what cannot be
/// read.
#[derive(Clone, PartialEq, Eq, Debug)]
pub enum KeyUnavailable {
    /// No credential store on this machine.
    NoCredentialStore { because: String },
    /// The store is there but locked.
    Locked,
    /// The store answered, but not with a usable key.
    Unreadable { because: String },
}

/// The sentence shown for an unavailable key.
pub open spec fn key_message(problem: KeyUnavailable) -> Seq<char> {
    match problem {
        KeyUnavailable::NoCredentialStore { .. } => "This machine has no place to keep the key that protects your history, so your entries stay sealed. Protection is unaffected, and Cairn keeps recording."@,
        KeyUnavailable::Locked => "Your keychain is locked, so your history stays sealed until it is unlocked. Protection is unaffected, and Cairn keeps recording."@,
        KeyUnavailable::Unreadable { .. } => "Cairn could not read the key that protects your history, so your entries stay sealed and untouched. Protection is unaffected."@,
    }
}

impl KeyUnavailable {
    /// One sentence, shown as written.
    pub fn message(&self) -> (text: String)
        ensures
            text@ == key_message(*self),
    {
        let mut out: Vec<char> = Vec::new();
        match self {
            KeyUnavailable::NoCredentialStore { .. } => push_str(
                &mut out,
                "This machine has no place to keep the key that protects your history, so your entries stay sealed. Protection is unaffected, and Cairn keeps recording.",
            ),
            KeyUnavailable::Locked => push_str(
                &mut out,
                "Your keychain is locked, so your history stays sealed until it is unlocked. Protection is unaffected, and Cairn keeps recording.",
            ),
            KeyUnavailable::Unreadable { .. } => push_str(
                &mut out,
                "Cairn could not read the key that protects your history, so your entries stay sealed and untouched. Protection is unaffected.",
            ),
        }
        assert(out@ =~= key_message(*self));
        crate::text::string_of(out.as_slice())
    }
}

/// Starting with the machine. Declared now, used later.
pub trait AutostartService {
    fn capability(&self) -> Capability;

    fn is_enabled(&self) -> Outcome<bool>;

    fn set_enabled(&self, on: bool) -> Outcome<()>;
}

} // verus!
