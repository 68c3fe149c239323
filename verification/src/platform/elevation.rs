//! Installing and removing the privileged helper: what each platform decides
//! around the one elevated step it runs, and the platform that cannot run a
//! helper at all.
//!
//! The elevated step itself (asking for permission and running a script)
//! belongs to the application; these functions say what its outcome means.
use vstd::prelude::*;
use crate::domain::dates::{decimal, push_decimal};
use crate::ipc::state::sentence;
use crate::services::{ElevationService, HelperStatus, Outcome, Removal, Trouble};
use crate::text::{push_str, string_of};

verus! {

/// The sentence when the helper to install is not where Cairn shipped it.
pub open spec fn helper_missing_text() -> Seq<char> {
    "Cairn cannot find the background component it needs to install. Try reinstalling Cairn."@
}

/// The answer when the helper to install is not where Cairn shipped it.
pub fn helper_missing() -> (trouble: Trouble)
    ensures
        trouble.message@ == helper_missing_text(),
{
    Trouble::new(sentence("Cairn cannot find the background component it needs to install. Try reinstalling Cairn."))
}

/// The sentence when the helper is not there after installing it.
pub open spec fn not_there_afterwards_text() -> Seq<char> {
    "Cairn asked to install its background component, but it is not there afterwards. Nothing has been changed."@
}

/// Whether installing worked, judged by the status read afterwards rather
/// than by the installer's own word.
pub fn installed_afterwards(status: HelperStatus) -> (outcome: Outcome<HelperStatus>)
    ensures
        match status {
            HelperStatus::Installed { version } => outcome == Ok::<HelperStatus, Trouble>(
                HelperStatus::Installed { version },
            ),
            _ => outcome matches Err(trouble) && trouble.message@ == not_there_afterwards_text(),
        },
{
    match status {
        HelperStatus::Installed { version } => Ok(HelperStatus::Installed { version }),
        _ => Err(
            Trouble::new(
                sentence(
                    "Cairn asked to install its background component, but it is not there afterwards. Nothing has been changed.",
                ),
            ),
        ),
    }
}

/// The sentence when permission could not even be asked for.
pub open spec fn could_not_ask_text(error: Seq<char>) -> Seq<char> {
    "Cairn could not ask for permission to change this machine ("@ + error + "). Nothing has been changed."@
}

/// The sentence when permission was not given.
pub open spec fn not_given_text() -> Seq<char> {
    "Cairn was not given permission to set up protection on this machine, so nothing has been changed. You can try again whenever you like."@
}

/// What running an elevated step came to: `Err` with the error's text when
/// the request for permission could not be made, otherwise whether the step
/// succeeded.
pub fn elevated_outcome(ran: Result<bool, String>) -> (outcome: Outcome<()>)
    ensures
        match ran {
            Err(error) => outcome matches Err(trouble) && trouble.message@ == could_not_ask_text(error@),
            Ok(true) => outcome is Ok,
            Ok(false) => outcome matches Err(trouble) && trouble.message@ == not_given_text(),
        },
{
    match ran {
        Err(error) => {
            let mut out: Vec<char> = Vec::new();
            push_str(&mut out, "Cairn could not ask for permission to change this machine (");
            push_str(&mut out, error.as_str());
            push_str(&mut out, "). Nothing has been changed.");
            Err(Trouble::new(string_of(out.as_slice())))
        },
        Ok(true) => Ok(()),
        Ok(false) => Err(
            Trouble::new(
                sentence(
                    "Cairn was not given permission to set up protection on this machine, so nothing has been changed. You can try again whenever you like.",
                ),
            ),
        ),
    }
}

/// What removing the helper left behind: complete only when nothing was.
pub fn removal_leaving(residue: Vec<String>) -> (removal: Removal)
    ensures
        removal.residue == residue,
        removal.removed == (residue@.len() == 0),
{
    let removed = residue.len() == 0;
    Removal { removed, residue }
}

/// `script` as a single-quoted PowerShell argument on one line: each quote
/// doubled, each newline a statement separator.
pub open spec fn quoted_for_powershell(script: Seq<char>) -> Seq<char>
    decreases script.len(),
{
    if script.len() == 0 {
        Seq::empty()
    } else {
        let c = script.last();
        quoted_for_powershell(script.drop_last()) + if c == '\'' {
            seq!['\'', '\'']
        } else if c == '\n' {
            seq![';', ' ']
        } else {
            seq![c]
        }
    }
}

/// `script` with each quote doubled and each newline made a `; `, so it can
/// travel as one single-quoted argument.
pub fn quote_for_powershell(script: &str) -> (quoted: String)
    ensures
        quoted@ == quoted_for_powershell(script@),
{
    let chars = crate::text::chars_of(script);
    let mut out: Vec<char> = Vec::new();
    let mut i: usize = 0;
    while i < chars.len()
        invariant
            i <= chars@.len(),
            chars@ == script@,
            out@ == quoted_for_powershell(chars@.subrange(0, i as int)),
        decreases chars.len() - i,
    {
        let c = chars[i];
        if c == '\'' {
            out.push('\'');
            out.push('\'');
        } else if c == '\n' {
            out.push(';');
            out.push(' ');
        } else {
            out.push(c);
        }
        assert(chars@.subrange(0, i + 1).drop_last() =~= chars@.subrange(0, i as int));
        i = i + 1;
    }
    assert(chars@.subrange(0, chars@.len() as int) =~= chars@);
    string_of(out.as_slice())
}

/// The script that installs the helper on Linux: the binary from `source`,
/// the data directory with the installing person's `owner_uid`, and a
/// systemd unit naming `version`.
pub open spec fn linux_install_text(source: Seq<char>, owner_uid: u32, version: Seq<char>) -> Seq<char> {
    "set -e\ninstall -d -m 0755 /usr/local/lib/cairn\ninstall -m 0755 '"@ + source
        + "' '/usr/local/lib/cairn/cairn-helper'\ninstall -d -m 0700 '/var/lib/cairn'\nprintf '%s\\n' '"@
        + decimal(owner_uid as nat)
        + "' > '/var/lib/cairn/owner'\nchmod 0600 '/var/lib/cairn/owner'\ncat > '/etc/systemd/system/cairn-helper.service' <<'UNIT'\n[Unit]\nDescription=Cairn helper "@
        + version
        + "\nAfter=network.target\n\n[Service]\nType=simple\nExecStart=/usr/local/lib/cairn/cairn-helper\nRestart=on-failure\nRestartSec=5\n# The helper writes system files and binds loopback ports. It needs nothing else.\nNoNewPrivileges=yes\nProtectHome=yes\nPrivateTmp=yes\n\n[Install]\nWantedBy=multi-user.target\nUNIT\nsystemctl daemon-reload\nsystemctl enable --now cairn-helper.service\n"@
}

/// The script that installs the helper on Linux.
pub fn linux_install_script(source: &str, owner_uid: u32, version: &str) -> (script: String)
    ensures
        script@ == linux_install_text(source@, owner_uid, version@),
{
    let mut out: Vec<char> = Vec::new();
    push_str(&mut out, "set -e\ninstall -d -m 0755 /usr/local/lib/cairn\ninstall -m 0755 '");
    push_str(&mut out, source);
    push_str(
        &mut out,
        "' '/usr/local/lib/cairn/cairn-helper'\ninstall -d -m 0700 '/var/lib/cairn'\nprintf '%s\\n' '",
    );
    push_decimal(&mut out, owner_uid as u64);
    push_str(
        &mut out,
        "' > '/var/lib/cairn/owner'\nchmod 0600 '/var/lib/cairn/owner'\ncat > '/etc/systemd/system/cairn-helper.service' <<'UNIT'\n[Unit]\nDescription=Cairn helper ",
    );
    push_str(&mut out, version);
    push_str(
        &mut out,
        "\nAfter=network.target\n\n[Service]\nType=simple\nExecStart=/usr/local/lib/cairn/cairn-helper\nRestart=on-failure\nRestartSec=5\n# The helper writes system files and binds loopback ports. It needs nothing else.\nNoNewPrivileges=yes\nProtectHome=yes\nPrivateTmp=yes\n\n[Install]\nWantedBy=multi-user.target\nUNIT\nsystemctl daemon-reload\nsystemctl enable --now cairn-helper.service\n",
    );
    assert(out@ =~= linux_install_text(source@, owner_uid, version@));
    string_of(out.as_slice())
}

/// The sentence on a Mac, where the helper cannot run yet.
pub open spec fn not_yet_on_mac_text() -> Seq<char> {
    "On this Mac, Cairn cannot yet keep protection in force on its own between restarts. Everything else works, and what is protected stays protected."@
}

/// The helper on a Mac: not available yet, and said so.
#[derive(Clone, Copy, PartialEq, Eq, Debug, Default, Structural)]
pub struct MacosElevation;

impl ElevationService for MacosElevation {
    fn helper_status(&self) -> (status: HelperStatus)
        ensures
            status matches HelperStatus::Unsupported { because } && because@ == not_yet_on_mac_text(),
    {
        HelperStatus::Unsupported {
            because: sentence(
                "On this Mac, Cairn cannot yet keep protection in force on its own between restarts. Everything else works, and what is protected stays protected.",
            ),
        }
    }

    fn install_helper(&self) -> (outcome: Outcome<HelperStatus>)
        ensures
            outcome matches Err(trouble) && trouble.message@ == not_yet_on_mac_text(),
    {
        Err(
            Trouble::new(
                sentence(
                    "On this Mac, Cairn cannot yet keep protection in force on its own between restarts. Everything else works, and what is protected stays protected.",
                ),
            ),
        )
    }

    fn uninstall_helper(&self) -> (outcome: Outcome<Removal>)
        ensures
            outcome matches Ok(removal) && removal.removed && removal.residue@.len() == 0,
    {
        Ok(Removal::clean())
    }
}

} // verus!
