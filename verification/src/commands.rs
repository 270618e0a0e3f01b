//! What the package managers are asked when the updates are checked.

use vstd::prelude::*;
use vstd::seq_lib::lemma_seq_concat_contains_all_elements;

use crate::text::{owned, push_string};
use crate::updates::{aur_helper, preferred_helper, Helper, Manager, MANAGERS};

verus! {

/// A question to a package manager.
#[derive(Clone, Copy, PartialEq, Eq, Structural, Debug)]
pub enum Query {
    Pacman,
    Aur(Helper),
    Flatpak,
    /// Where the global JavaScript packages are.
    NpmRoot,
    NpmOutdated,
    /// The updates of a further package manager; of pipx, its packages.
    Further(Manager),
}

/// The program that is asked.
pub open spec fn program_of(q: Query) -> Seq<char> {
    match q {
        Query::Pacman => "checkupdates"@,
        Query::Aur(helper) => helper.name(),
        Query::Flatpak => "flatpak"@,
        Query::NpmRoot => "npm"@,
        Query::NpmOutdated => "npm"@,
        Query::Further(Manager::Rustup) => "rustup"@,
        Query::Further(Manager::Cargo) => "cargo"@,
        Query::Further(Manager::Pipx) => "pipx"@,
        Query::Further(Manager::Pip) => "pip"@,
        Query::Further(Manager::Gem) => "gem"@,
        Query::Further(Manager::Go) => "go"@,
        Query::Further(Manager::Composer) => "composer"@,
        Query::Further(Manager::Deno) => "deno"@,
    }
}

pub fn program(q: Query) -> (r: &'static str)
    ensures
        r@ == program_of(q),
{
    match q {
        Query::Pacman => "checkupdates",
        Query::Aur(helper) => helper.name_text(),
        Query::Flatpak => "flatpak",
        Query::NpmRoot => "npm",
        Query::NpmOutdated => "npm",
        Query::Further(Manager::Rustup) => "rustup",
        Query::Further(Manager::Cargo) => "cargo",
        Query::Further(Manager::Pipx) => "pipx",
        Query::Further(Manager::Pip) => "pip",
        Query::Further(Manager::Gem) => "gem",
        Query::Further(Manager::Go) => "go",
        Query::Further(Manager::Composer) => "composer",
        Query::Further(Manager::Deno) => "deno",
    }
}

/// What the program is told.
pub open spec fn arguments_of(q: Query) -> Seq<Seq<char>> {
    match q {
        Query::Pacman => Seq::empty(),
        Query::Aur(_) => seq!["-Qua"@],
        Query::Flatpak => seq!["remote-ls"@, "--updates"@],
        Query::NpmRoot => seq!["root"@, "-g"@],
        Query::NpmOutdated => seq!["outdated"@, "-g"@, "--parseable"@],
        Query::Further(Manager::Rustup) => seq!["check"@],
        Query::Further(Manager::Cargo) => seq!["install-update"@, "--list"@],
        Query::Further(Manager::Pipx) => seq!["list"@, "--short"@],
        Query::Further(Manager::Pip) => seq!["list"@, "--outdated"@],
        Query::Further(Manager::Gem) => seq!["outdated"@],
        Query::Further(Manager::Go) => seq!["list"@, "-m"@, "-u"@, "all"@],
        Query::Further(Manager::Composer) => seq!["global"@, "outdated"@, "--direct"@],
        Query::Further(Manager::Deno) => seq!["outdated"@],
    }
}

/// The command that asks.
pub open spec fn command_of(q: Query) -> Seq<Seq<char>> {
    seq![program_of(q)] + arguments_of(q)
}

fn push_word(list: &mut Vec<String>, word: &str)
    ensures
        final(list).deep_view() == old(list).deep_view().push(word@),
{
    push_string(list, owned(word));
}

pub fn update_command(q: Query) -> (r: Vec<String>)
    ensures
        r.deep_view() == command_of(q),
{
    let mut v: Vec<String> = Vec::new();
    push_word(&mut v, program(q));
    match q {
        Query::Pacman => {},
        Query::Aur(_) => {
            push_word(&mut v, "-Qua");
        },
        Query::Flatpak => {
            push_word(&mut v, "remote-ls");
            push_word(&mut v, "--updates");
        },
        Query::NpmRoot => {
            push_word(&mut v, "root");
            push_word(&mut v, "-g");
        },
        Query::NpmOutdated => {
            push_word(&mut v, "outdated");
            push_word(&mut v, "-g");
            push_word(&mut v, "--parseable");
        },
        Query::Further(Manager::Rustup) => {
            push_word(&mut v, "check");
        },
        Query::Further(Manager::Cargo) => {
            push_word(&mut v, "install-update");
            push_word(&mut v, "--list");
        },
        Query::Further(Manager::Pipx) => {
            push_word(&mut v, "list");
            push_word(&mut v, "--short");
        },
        Query::Further(Manager::Pip) => {
            push_word(&mut v, "list");
            push_word(&mut v, "--outdated");
        },
        Query::Further(Manager::Gem) => {
            push_word(&mut v, "outdated");
        },
        Query::Further(Manager::Go) => {
            push_word(&mut v, "list");
            push_word(&mut v, "-m");
            push_word(&mut v, "-u");
            push_word(&mut v, "all");
        },
        Query::Further(Manager::Composer) => {
            push_word(&mut v, "global");
            push_word(&mut v, "outdated");
            push_word(&mut v, "--direct");
        },
        Query::Further(Manager::Deno) => {
            push_word(&mut v, "outdated");
        },
    }
    assert(v.deep_view() =~= command_of(q));
    v
}

/// The command that asks for the updates of one package of pipx.
pub open spec fn pipx_command_of(package: Seq<char>) -> Seq<Seq<char>> {
    seq!["pipx"@, "runpip"@, package, "list"@, "--outdated"@, "--not-required"@]
}

pub fn pipx_command(package: &str) -> (r: Vec<String>)
    ensures
        r.deep_view() == pipx_command_of(package@),
{
    let mut v: Vec<String> = Vec::new();
    push_word(&mut v, "pipx");
    push_word(&mut v, "runpip");
    push_word(&mut v, package);
    push_word(&mut v, "list");
    push_word(&mut v, "--outdated");
    push_word(&mut v, "--not-required");
    assert(v.deep_view() =~= pipx_command_of(package@));
    v
}

/// Programs that run a command with the rights of another user.
pub open spec fn elevates(program: Seq<char>) -> bool {
    ||| program == "sudo"@
    ||| program == "doas"@
    ||| program == "pkexec"@
    ||| program == "run0"@
    ||| program == "su"@
}

/// Words that ask a package manager to change what is installed.
pub open spec fn changes_packages(word: Seq<char>) -> bool {
    ||| word == "install"@
    ||| word == "uninstall"@
    ||| word == "remove"@
    ||| word == "update"@
    ||| word == "upgrade"@
    ||| word == "-S"@
    ||| word == "-Syu"@
}

/// Every command runs the package manager's own program, and never one that gives
/// it the rights of another user.
pub proof fn law_never_elevated(q: Query, package: Seq<char>)
    ensures
        command_of(q)[0] == program_of(q),
        !elevates(program_of(q)),
        pipx_command_of(package)[0] == program_of(Query::Further(Manager::Pipx)),
{
    reveal_strlit("sudo");
    assert("sudo"@.len() == 4 && "sudo"@[0] == 's' && "sudo"@[1] == 'u');
    reveal_strlit("doas");
    assert("doas"@.len() == 4 && "doas"@[0] == 'd' && "doas"@[1] == 'o');
    reveal_strlit("pkexec");
    assert("pkexec"@.len() == 6 && "pkexec"@[0] == 'p' && "pkexec"@[1] == 'k');
    reveal_strlit("run0");
    assert("run0"@.len() == 4 && "run0"@[0] == 'r' && "run0"@[1] == 'u');
    reveal_strlit("su");
    assert("su"@.len() == 2 && "su"@[0] == 's' && "su"@[1] == 'u');
    reveal_strlit("checkupdates");
    assert("checkupdates"@.len() == 12 && "checkupdates"@[0] == 'c' && "checkupdates"@[1] == 'h');
    reveal_strlit("paru");
    assert("paru"@.len() == 4 && "paru"@[0] == 'p' && "paru"@[1] == 'a');
    reveal_strlit("yay");
    assert("yay"@.len() == 3 && "yay"@[0] == 'y' && "yay"@[1] == 'a');
    reveal_strlit("pikaur");
    assert("pikaur"@.len() == 6 && "pikaur"@[0] == 'p' && "pikaur"@[1] == 'i');
    reveal_strlit("flatpak");
    assert("flatpak"@.len() == 7 && "flatpak"@[0] == 'f' && "flatpak"@[1] == 'l');
    reveal_strlit("npm");
    assert("npm"@.len() == 3 && "npm"@[0] == 'n' && "npm"@[1] == 'p');
    reveal_strlit("rustup");
    assert("rustup"@.len() == 6 && "rustup"@[0] == 'r' && "rustup"@[1] == 'u');
    reveal_strlit("cargo");
    assert("cargo"@.len() == 5 && "cargo"@[0] == 'c' && "cargo"@[1] == 'a');
    reveal_strlit("pipx");
    assert("pipx"@.len() == 4 && "pipx"@[0] == 'p' && "pipx"@[1] == 'i');
    reveal_strlit("pip");
    assert("pip"@.len() == 3 && "pip"@[0] == 'p' && "pip"@[1] == 'i');
    reveal_strlit("gem");
    assert("gem"@.len() == 3 && "gem"@[0] == 'g' && "gem"@[1] == 'e');
    reveal_strlit("go");
    assert("go"@.len() == 2 && "go"@[0] == 'g' && "go"@[1] == 'o');
    reveal_strlit("composer");
    assert("composer"@.len() == 8 && "composer"@[0] == 'c' && "composer"@[1] == 'o');
    reveal_strlit("deno");
    assert("deno"@.len() == 4 && "deno"@[0] == 'd' && "deno"@[1] == 'e');
}

/// No command asks a package manager to change what is installed.
pub proof fn law_read_only(q: Query, package: Seq<char>)
    ensures
        forall|i: int|
            0 <= i < arguments_of(q).len() ==> !changes_packages(#[trigger] arguments_of(q)[i]),
        forall|i: int|
            0 <= i < pipx_command_of(package).len() && i != 2 ==> !changes_packages(
                #[trigger] pipx_command_of(package)[i],
            ),
{
    reveal_strlit("install");
    assert("install"@.len() == 7 && "install"@[0] == 'i' && "install"@[1] == 'n');
    reveal_strlit("uninstall");
    assert("uninstall"@.len() == 9 && "uninstall"@[0] == 'u' && "uninstall"@[1] == 'n');
    reveal_strlit("remove");
    assert("remove"@.len() == 6 && "remove"@[0] == 'r' && "remove"@[1] == 'e');
    reveal_strlit("update");
    assert("update"@.len() == 6 && "update"@[0] == 'u' && "update"@[1] == 'p');
    reveal_strlit("upgrade");
    assert("upgrade"@.len() == 7 && "upgrade"@[0] == 'u' && "upgrade"@[1] == 'p');
    reveal_strlit("-S");
    assert("-S"@.len() == 2 && "-S"@[0] == '-' && "-S"@[1] == 'S');
    reveal_strlit("-Syu");
    assert("-Syu"@.len() == 4 && "-Syu"@[0] == '-' && "-Syu"@[1] == 'S');
    reveal_strlit("-Qua");
    assert("-Qua"@.len() == 4 && "-Qua"@[0] == '-' && "-Qua"@[1] == 'Q');
    reveal_strlit("remote-ls");
    assert("remote-ls"@.len() == 9 && "remote-ls"@[0] == 'r' && "remote-ls"@[1] == 'e');
    reveal_strlit("--updates");
    assert("--updates"@.len() == 9 && "--updates"@[0] == '-' && "--updates"@[1] == '-');
    reveal_strlit("root");
    assert("root"@.len() == 4 && "root"@[0] == 'r' && "root"@[1] == 'o');
    reveal_strlit("-g");
    assert("-g"@.len() == 2 && "-g"@[0] == '-' && "-g"@[1] == 'g');
    reveal_strlit("outdated");
    assert("outdated"@.len() == 8 && "outdated"@[0] == 'o' && "outdated"@[1] == 'u');
    reveal_strlit("--parseable");
    assert("--parseable"@.len() == 11 && "--parseable"@[0] == '-' && "--parseable"@[1] == '-');
    reveal_strlit("check");
    assert("check"@.len() == 5 && "check"@[0] == 'c' && "check"@[1] == 'h');
    reveal_strlit("install-update");
    assert("install-update"@.len() == 14 && "install-update"@[0] == 'i' && "install-update"@[1] == 'n');
    reveal_strlit("--list");
    assert("--list"@.len() == 6 && "--list"@[0] == '-' && "--list"@[1] == '-');
    reveal_strlit("list");
    assert("list"@.len() == 4 && "list"@[0] == 'l' && "list"@[1] == 'i');
    reveal_strlit("--short");
    assert("--short"@.len() == 7 && "--short"@[0] == '-' && "--short"@[1] == '-');
    reveal_strlit("--outdated");
    assert("--outdated"@.len() == 10 && "--outdated"@[0] == '-' && "--outdated"@[1] == '-');
    reveal_strlit("-m");
    assert("-m"@.len() == 2 && "-m"@[0] == '-' && "-m"@[1] == 'm');
    reveal_strlit("-u");
    assert("-u"@.len() == 2 && "-u"@[0] == '-' && "-u"@[1] == 'u');
    reveal_strlit("all");
    assert("all"@.len() == 3 && "all"@[0] == 'a' && "all"@[1] == 'l');
    reveal_strlit("global");
    assert("global"@.len() == 6 && "global"@[0] == 'g' && "global"@[1] == 'l');
    reveal_strlit("--direct");
    assert("--direct"@.len() == 8 && "--direct"@[0] == '-' && "--direct"@[1] == '-');
    reveal_strlit("pipx");
    assert("pipx"@.len() == 4 && "pipx"@[0] == 'p' && "pipx"@[1] == 'i');
    reveal_strlit("runpip");
    assert("runpip"@.len() == 6 && "runpip"@[0] == 'r' && "runpip"@[1] == 'u');
    reveal_strlit("--not-required");
    assert("--not-required"@.len() == 14 && "--not-required"@[0] == '-' && "--not-required"@[1] == '-');
    assert(!changes_packages("-Qua"@));
    assert(!changes_packages("remote-ls"@));
    assert(!changes_packages("--updates"@));
    assert(!changes_packages("root"@));
    assert(!changes_packages("-g"@));
    assert(!changes_packages("outdated"@));
    assert(!changes_packages("--parseable"@));
    assert(!changes_packages("check"@));
    assert(!changes_packages("install-update"@));
    assert(!changes_packages("--list"@));
    assert(!changes_packages("list"@));
    assert(!changes_packages("--short"@));
    assert(!changes_packages("--outdated"@));
    assert(!changes_packages("-m"@));
    assert(!changes_packages("-u"@));
    assert(!changes_packages("all"@));
    assert(!changes_packages("global"@));
    assert(!changes_packages("--direct"@));
    assert(!changes_packages("pipx"@));
    assert(!changes_packages("runpip"@));
    assert(!changes_packages("--not-required"@));
    let list = arguments_of(q);
    assert forall|i: int| 0 <= i < list.len() implies !changes_packages(#[trigger] list[i]) by {
        assert(i == 0 || i == 1 || i == 2 || i == 3);
    }
    let list = pipx_command_of(package);
    assert forall|i: int| 0 <= i < list.len() && i != 2 implies !changes_packages(
        #[trigger] list[i],
    ) by {
        assert(i == 0 || i == 1 || i == 3 || i == 4 || i == 5);
    }
}

/// Which programs are installed.
#[derive(Debug)]
pub struct Found {
    pub checkupdates: bool,
    pub paru: bool,
    pub yay: bool,
    pub pikaur: bool,
    pub flatpak: bool,
    pub npm: bool,
    pub further: Vec<Manager>,
}

/// What a check asks, in its order. Whether npm is asked for more depends on what
/// it says first.
pub open spec fn queries_of(f: Found) -> Seq<Query> {
    (if f.checkupdates {
        seq![Query::Pacman]
    } else {
        Seq::empty()
    }) + (match preferred_helper(f.paru, f.yay, f.pikaur) {
        Some(helper) => seq![Query::Aur(helper)],
        None => Seq::empty(),
    }) + (if f.flatpak {
        seq![Query::Flatpak]
    } else {
        Seq::empty()
    }) + (if f.npm {
        seq![Query::NpmRoot]
    } else {
        Seq::empty()
    }) + f.further@.map_values(|m: Manager| Query::Further(m))
}

pub fn queries(f: &Found) -> (r: Vec<Query>)
    ensures
        r@ == queries_of(*f),
{
    let mut out: Vec<Query> = Vec::new();
    if f.checkupdates {
        out.push(Query::Pacman);
    }
    if let Some(helper) = aur_helper(f.paru, f.yay, f.pikaur) {
        out.push(Query::Aur(helper));
    }
    if f.flatpak {
        out.push(Query::Flatpak);
    }
    if f.npm {
        out.push(Query::NpmRoot);
    }
    let ghost first = out@;
    let ghost rest = f.further@.map_values(|m: Manager| Query::Further(m));
    let n: usize = f.further.len();
    let mut i: usize = 0;
    assert(first + rest.take(0) =~= first);
    while i < n
        invariant
            i <= n,
            n == f.further@.len(),
            rest == f.further@.map_values(|m: Manager| Query::Further(m)),
            out@ == first + rest.take(i as int),
        decreases n - i,
    {
        out.push(Query::Further(f.further[i]));
        assert(rest.take(i + 1) =~= rest.take(i as int).push(rest[i as int]));
        i += 1;
    }
    assert(rest.take(n as int) =~= rest);
    assert(out@ =~= queries_of(*f));
    out
}

/// Whether a check asks a question, given what is installed.
pub open spec fn asks(f: Found, q: Query) -> bool {
    match q {
        Query::Pacman => f.checkupdates,
        Query::Aur(helper) => preferred_helper(f.paru, f.yay, f.pikaur) == Some(helper),
        Query::Flatpak => f.flatpak,
        Query::NpmRoot => f.npm,
        Query::NpmOutdated => false,
        Query::Further(m) => f.further@.contains(m),
    }
}

/// A check asks exactly the package managers that are installed, and of the helpers
/// for the user repository the preferred one.
pub proof fn law_installed_managers_asked(f: Found, q: Query)
    ensures
        queries_of(f).contains(q) <==> asks(f, q),
{
    let pacman = if f.checkupdates {
        seq![Query::Pacman]
    } else {
        Seq::empty()
    };
    let aur = match preferred_helper(f.paru, f.yay, f.pikaur) {
        Some(helper) => seq![Query::Aur(helper)],
        None => Seq::empty(),
    };
    let flatpak = if f.flatpak {
        seq![Query::Flatpak]
    } else {
        Seq::empty()
    };
    let npm = if f.npm {
        seq![Query::NpmRoot]
    } else {
        Seq::empty()
    };
    let further = f.further@.map_values(|m: Manager| Query::Further(m));
    lemma_seq_concat_contains_all_elements(pacman, aur, q);
    lemma_seq_concat_contains_all_elements(pacman + aur, flatpak, q);
    lemma_seq_concat_contains_all_elements(pacman + aur + flatpak, npm, q);
    lemma_seq_concat_contains_all_elements(pacman + aur + flatpak + npm, further, q);
    assert(pacman.contains(q) <==> f.checkupdates && q == Query::Pacman) by {
        if f.checkupdates {
            assert(pacman[0] == Query::Pacman);
        }
    }
    assert(aur.contains(q) <==> (preferred_helper(f.paru, f.yay, f.pikaur) matches Some(h) && q
        == Query::Aur(h))) by {
        if let Some(h) = preferred_helper(f.paru, f.yay, f.pikaur) {
            assert(aur[0] == Query::Aur(h));
        }
    }
    assert(flatpak.contains(q) <==> f.flatpak && q == Query::Flatpak) by {
        if f.flatpak {
            assert(flatpak[0] == Query::Flatpak);
        }
    }
    assert(npm.contains(q) <==> f.npm && q == Query::NpmRoot) by {
        if f.npm {
            assert(npm[0] == Query::NpmRoot);
        }
    }
    assert(further.contains(q) <==> (q matches Query::Further(m) && f.further@.contains(m))) by {
        if further.contains(q) {
            let i = further.index_of(q);
            assert(further[i] == Query::Further(f.further@[i]));
            assert(f.further@.contains(f.further@[i]));
        }
        if let Query::Further(m) = q {
            if f.further@.contains(m) {
                let i = f.further@.index_of(m);
                assert(further[i] == q);
            }
        }
    }
}

/// The list of further package managers leaves none out.
pub proof fn law_no_manager_left_out(m: Manager)
    ensures
        MANAGERS@.contains(m),
{
    let at = match m {
        Manager::Rustup => 0int,
        Manager::Cargo => 1,
        Manager::Pipx => 2,
        Manager::Pip => 3,
        Manager::Gem => 4,
        Manager::Go => 5,
        Manager::Composer => 6,
        Manager::Deno => 7,
    };
    assert(MANAGERS@[at] == m);
}

} // verus!
