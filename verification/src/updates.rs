//! Pending package updates, counted from what the package managers list.

use vstd::prelude::*;

use crate::host::{user_writable, writable, Owner};
use crate::number::{decimal, show};
use crate::text::{contains, has_text, is_space, law_blank, lines, owned, push_string, split_lines, split_words, trim, trimmed, words, CharClass};

verus! {

/// The state of the update check.
#[derive(Debug)]
pub struct UpdatesInfo {
    pub lines: Vec<String>,
    pub checking: bool,
    /// When the last check ended, in nanoseconds.
    pub last_checked: Option<u64>,
}

impl Default for UpdatesInfo {
    fn default() -> (r: UpdatesInfo)
        ensures
            r.lines@.len() == 0,
            !r.checking,
            r.last_checked is None,
    {
        UpdatesInfo { lines: Vec::new(), checking: false, last_checked: None }
    }
}

/// The helpers for the user repository.
#[derive(Clone, Copy, PartialEq, Eq, Structural, Debug)]
pub enum Helper {
    Paru,
    Yay,
    Pikaur,
}

impl Helper {
    pub open spec fn name(self) -> Seq<char> {
        match self {
            Helper::Paru => "paru"@,
            Helper::Yay => "yay"@,
            Helper::Pikaur => "pikaur"@,
        }
    }

    pub fn name_text(self) -> (r: &'static str)
        ensures
            r@ == self.name(),
    {
        match self {
            Helper::Paru => "paru",
            Helper::Yay => "yay",
            Helper::Pikaur => "pikaur",
        }
    }
}

/// Which helpers for the user repository are installed, and what the preferred one
/// listed.
#[derive(Debug)]
pub struct AurProbe {
    pub paru: bool,
    pub yay: bool,
    pub pikaur: bool,
    pub output: String,
}

/// What was found of the package manager for JavaScript: what `npm root -g`
/// prints, who asks, who owns that directory, and what was listed as outdated.
#[derive(Debug)]
pub struct NpmProbe {
    pub root: String,
    pub me: u32,
    pub owner: Option<Owner>,
    pub outdated: String,
}

/// Further package managers. Their listings hold more than updates.
#[derive(Clone, Copy, PartialEq, Eq, Structural, Debug)]
pub enum Manager {
    Rustup,
    Cargo,
    Pipx,
    Pip,
    Gem,
    Go,
    Composer,
    Deno,
}

impl Manager {
    /// What stands in front of the count.
    pub open spec fn label(self) -> Seq<char> {
        match self {
            Manager::Rustup => "Rustup:            "@,
            Manager::Cargo => "Cargo:             "@,
            Manager::Pipx => "Pipx:              "@,
            Manager::Pip => "Pip:               "@,
            Manager::Gem => "Gem:               "@,
            Manager::Go => "Go:                "@,
            Manager::Composer => "Composer (Global): "@,
            Manager::Deno => "Deno:              "@,
        }
    }

    /// What marks the lines that list an update, where not all do: the word for it,
    /// the sign between two versions, the bracket round one, or a sign in a name.
    pub open spec fn marker(self) -> Option<Seq<char>> {
        match self {
            Manager::Rustup => Some("pdate available"@),
            Manager::Cargo => Some("Yes"@),
            Manager::Pipx => None,
            Manager::Pip => None,
            Manager::Gem => Some("<"@),
            Manager::Go => Some("["@),
            Manager::Composer => Some("/"@),
            Manager::Deno => Some(":"@),
        }
    }

    /// The lines of an output that may list an update: all but a heading of two
    /// lines, where there is one.
    pub open spec fn body(self, list: Seq<Seq<char>>) -> Seq<Seq<char>> {
        if self == Manager::Pipx || self == Manager::Pip {
            if list.len() > 2 {
                list.skip(2)
            } else {
                Seq::empty()
            }
        } else {
            list
        }
    }

    /// The lines of a number of outputs that may list an update.
    pub open spec fn bodies(self, outputs: Seq<Seq<char>>) -> Seq<Seq<char>>
        decreases outputs.len(),
    {
        if outputs.len() == 0 {
            Seq::empty()
        } else {
            self.bodies(outputs.drop_last()) + self.body(lines(outputs.last()))
        }
    }

    fn label_text(self) -> (r: &'static str)
        ensures
            r@ == self.label(),
    {
        match self {
            Manager::Rustup => "Rustup:            ",
            Manager::Cargo => "Cargo:             ",
            Manager::Pipx => "Pipx:              ",
            Manager::Pip => "Pip:               ",
            Manager::Gem => "Gem:               ",
            Manager::Go => "Go:                ",
            Manager::Composer => "Composer (Global): ",
            Manager::Deno => "Deno:              ",
        }
    }

    fn marker_text(self) -> (r: Option<&'static str>)
        ensures
            r.deep_view() == self.marker(),
    {
        match self {
            Manager::Rustup => Some("pdate available"),
            Manager::Cargo => Some("Yes"),
            Manager::Pipx => None,
            Manager::Pip => None,
            Manager::Gem => Some("<"),
            Manager::Go => Some("["),
            Manager::Composer => Some("/"),
            Manager::Deno => Some(":"),
        }
    }

    fn push_body(self, out: &mut Vec<String>, output: &str)
        ensures
            final(out).deep_view() == old(out).deep_view() + self.body(lines(output@)),
    {
        let list = split_lines(output);
        let n: usize = list.len();
        let from: usize = if self == Manager::Pipx || self == Manager::Pip {
            if n > 2 {
                2
            } else {
                n
            }
        } else {
            0
        };
        let ghost all = list.deep_view();
        let ghost body = all.skip(from as int);
        let ghost first = out.deep_view();
        assert(body =~= self.body(all));
        let mut i: usize = from;
        assert(first + body.take(0) =~= first);
        while i < n
            invariant
                from <= i <= n,
                n == list@.len(),
                all == list.deep_view(),
                body == all.skip(from as int),
                out.deep_view() == first + body.take(i - from),
            decreases n - i,
        {
            push_string(out, owned(list[i].as_str()));
            assert(body.take(i + 1 - from) =~= body.take(i - from).push(all[i as int]));
            assert(out.deep_view() =~= first + body.take(i + 1 - from));
            i += 1;
        }
        assert(body.take(n - from) =~= body);
    }

    fn collect_bodies(self, outputs: &Vec<String>) -> (r: Vec<String>)
        ensures
            r.deep_view() == self.bodies(outputs.deep_view()),
    {
        let n: usize = outputs.len();
        let ghost all = outputs.deep_view();
        let mut out: Vec<String> = Vec::new();
        let mut i: usize = 0;
        assert(all.take(0) =~= Seq::<Seq<char>>::empty());
        assert(out.deep_view() =~= Seq::<Seq<char>>::empty());
        while i < n
            invariant
                i <= n,
                n == outputs@.len(),
                all == outputs.deep_view(),
                out.deep_view() == self.bodies(all.take(i as int)),
            decreases n - i,
        {
            assert(all.take(i + 1).drop_last() =~= all.take(i as int));
            self.push_body(&mut out, outputs[i].as_str());
            i += 1;
        }
        assert(all.take(n as int) =~= all);
        out
    }
}

/// All of them.
pub const MANAGERS: [Manager; 8] = [
    Manager::Rustup,
    Manager::Cargo,
    Manager::Pipx,
    Manager::Pip,
    Manager::Gem,
    Manager::Go,
    Manager::Composer,
    Manager::Deno,
];

/// What a further package manager listed, in one output or several.
#[derive(Debug)]
pub struct Listing {
    pub manager: Manager,
    pub outputs: Vec<String>,
}

/// What the package managers listed; `None` stands for one that is not installed.
#[derive(Debug)]
pub struct Listings {
    pub pacman: Option<String>,
    pub aur: AurProbe,
    pub flatpak: Option<String>,
    pub npm: Option<NpmProbe>,
    pub others: Vec<Listing>,
}

/// Whether a line lists an update: it is not blank and holds the marker, if any.
pub open spec fn is_update(line: Seq<char>, marker: Option<Seq<char>>) -> bool {
    trimmed(line, CharClass::Space).len() > 0 && (marker matches Some(m) ==> contains(line, m))
}

/// The number of updates in a list of lines.
pub open spec fn pending(list: Seq<Seq<char>>, marker: Option<Seq<char>>) -> nat
    decreases list.len(),
{
    if list.len() == 0 {
        0
    } else if is_update(list.last(), marker) {
        pending(list.drop_last(), marker) + 1
    } else {
        pending(list.drop_last(), marker)
    }
}

fn count_lines(list: &Vec<String>, marker: Option<&str>) -> (r: usize)
    ensures
        r == pending(list.deep_view(), marker.deep_view()),
{
    let n: usize = list.len();
    let ghost all = list.deep_view();
    let ghost m = marker.deep_view();
    let mut count: usize = 0;
    let mut i: usize = 0;
    assert(all.take(0) =~= Seq::<Seq<char>>::empty());
    while i < n
        invariant
            count <= i <= n,
            n == list@.len(),
            all == list.deep_view(),
            m == marker.deep_view(),
            count == pending(all.take(i as int), m),
        decreases n - i,
    {
        assert(all.take(i + 1).drop_last() =~= all.take(i as int));
        let line = list[i].as_str();
        let marked = match marker {
            Some(t) => has_text(line, t),
            None => true,
        };
        if !trim(line).as_str().is_empty() && marked {
            count += 1;
        }
        i += 1;
    }
    assert(all.take(n as int) =~= all);
    count
}

/// The line of a package manager.
pub open spec fn manager_line(label: Seq<char>, count: nat) -> Seq<char> {
    label + decimal(count) + " updates"@
}

/// The number of updates in what a package manager listed.
pub fn count_updates(output: &str) -> (r: usize)
    ensures
        r == pending(lines(output@), None),
{
    count_lines(&split_lines(output), None)
}

fn line_for(label: &str, count: usize) -> (r: String)
    ensures
        r@ == manager_line(label@, count as nat),
{
    let mut r = owned(label);
    r.append(show(count as u64).as_str());
    r.append(" updates");
    r
}

/// The line of a further package manager.
pub open spec fn other_line(l: Listing) -> Seq<char> {
    manager_line(
        l.manager.label(),
        pending(l.manager.bodies(l.outputs.deep_view()), l.manager.marker()),
    )
}

/// The lines of the further package managers.
pub open spec fn other_lines(list: Seq<Listing>) -> Seq<Seq<char>> {
    Seq::new(list.len(), |i: int| other_line(list[i]))
}

/// The lines of the package managers that were found.
pub open spec fn found_lines(l: Listings) -> Seq<Seq<char>> {
    (match l.pacman {
        Some(out) => seq![manager_line("Pacman (Official): "@, pending(lines(out@), None))],
        None => Seq::empty(),
    }) + (match preferred_helper(l.aur.paru, l.aur.yay, l.aur.pikaur) {
        Some(helper) => seq![
            manager_line("AUR ("@ + helper.name() + "):        "@, pending(lines(l.aur.output@), None)),
        ],
        None => Seq::empty(),
    }) + (match l.flatpak {
        Some(out) => seq![manager_line("Flatpak:           "@, pending(lines(out@), None))],
        None => Seq::empty(),
    }) + (match l.npm {
        Some(npm) => if npm_owned(npm.root@, npm.me, npm.owner) {
            seq![manager_line("NPM (Global):      "@, pending(lines(npm.outdated@), None))]
        } else {
            seq!["NPM (Global):      managed by pacman"@]
        },
        None => Seq::empty(),
    }) + other_lines(l.others@)
}

/// What is shown of the updates.
pub open spec fn update_lines(l: Listings) -> Seq<Seq<char>> {
    if found_lines(l).len() == 0 {
        seq!["No supported package managers found"@]
    } else {
        found_lines(l)
    }
}

fn list_updates(l: &Listings) -> (r: Vec<String>)
    ensures
        r.deep_view() == update_lines(*l),
{
    let mut out: Vec<String> = Vec::new();
    if let Some(o) = &l.pacman {
        push_string(&mut out, line_for("Pacman (Official): ", count_updates(o.as_str())));
    }
    if let Some(helper) = aur_helper(l.aur.paru, l.aur.yay, l.aur.pikaur) {
        let mut label = owned("AUR (");
        label.append(helper.name_text());
        label.append("):        ");
        push_string(&mut out, line_for(label.as_str(), count_updates(l.aur.output.as_str())));
    }
    if let Some(o) = &l.flatpak {
        push_string(&mut out, line_for("Flatpak:           ", count_updates(o.as_str())));
    }
    if let Some(npm) = &l.npm {
        if npm_counted(npm.root.as_str(), npm.me, npm.owner) {
            let count: usize = count_updates(npm.outdated.as_str());
            push_string(&mut out, line_for("NPM (Global):      ", count));
        } else {
            push_string(&mut out, owned("NPM (Global):      managed by pacman"));
        }
    }
    let ghost first = out.deep_view();
    let ghost rest = other_lines(l.others@);
    let n: usize = l.others.len();
    let mut i: usize = 0;
    assert(first + rest.take(0) =~= first);
    while i < n
        invariant
            i <= n,
            n == l.others@.len(),
            rest == other_lines(l.others@),
            out.deep_view() == first + rest.take(i as int),
        decreases n - i,
    {
        let other = &l.others[i];
        let list = other.manager.collect_bodies(&other.outputs);
        let count: usize = count_lines(&list, other.manager.marker_text());
        push_string(&mut out, line_for(other.manager.label_text(), count));
        assert(rest.take(i + 1) =~= rest.take(i as int).push(rest[i as int]));
        i += 1;
    }
    assert(rest.take(n as int) =~= rest);
    assert(out.deep_view() =~= found_lines(*l));
    if out.is_empty() {
        push_string(&mut out, owned("No supported package managers found"));
        assert(out.deep_view() =~= seq!["No supported package managers found"@]);
    }
    out
}

impl UpdatesInfo {
    /// Whether a check may start: none is under way.
    pub open spec fn idle(self) -> bool {
        !self.checking
    }

    /// The state with a check under way.
    pub open spec fn begun(self) -> UpdatesInfo {
        UpdatesInfo { checking: true, ..self }
    }

    /// Whether the state is the one that a check leaves behind.
    pub open spec fn reports(self, listings: Listings, now: u64) -> bool {
        &&& self.lines.deep_view() == update_lines(listings)
        &&& !self.checking
        &&& self.last_checked == Some(now)
    }

    /// Starts a check, unless one is under way.
    pub fn begin(&mut self) -> (r: bool)
        ensures
            r == old(self).idle(),
            r == !old(self).checking,
            *final(self) == old(self).begun(),
            *final(self) == (UpdatesInfo { checking: true, ..*old(self) }),
    {
        if self.checking {
            return false;
        }
        self.checking = true;
        true
    }
}

/// Ends a check with what the package managers listed.
pub fn check_updates(state: &mut UpdatesInfo, listings: &Listings, now: u64)
    ensures
        final(state).reports(*listings, now),
        final(state).lines.deep_view() == update_lines(*listings),
        !final(state).checking,
        final(state).last_checked == Some(now),
{
    state.lines = list_updates(listings);
    state.checking = false;
    state.last_checked = Some(now);
}

/// The first word of each line that has one.
pub open spec fn first_words(list: Seq<Seq<char>>) -> Seq<Seq<char>>
    decreases list.len(),
{
    if list.len() == 0 {
        Seq::empty()
    } else if words(list.last()).len() > 0 {
        first_words(list.drop_last()).push(words(list.last())[0])
    } else {
        first_words(list.drop_last())
    }
}

/// The packages in what `pipx list --short` prints: a name and a version in each
/// line.
pub fn pipx_packages(output: &str) -> (r: Vec<String>)
    ensures
        r.deep_view() == first_words(lines(output@)),
{
    let list = split_lines(output);
    let n: usize = list.len();
    let ghost all = list.deep_view();
    let mut out: Vec<String> = Vec::new();
    let mut i: usize = 0;
    assert(all.take(0) =~= Seq::<Seq<char>>::empty());
    assert(out.deep_view() =~= Seq::<Seq<char>>::empty());
    while i < n
        invariant
            i <= n,
            n == list@.len(),
            all == list.deep_view(),
            out.deep_view() == first_words(all.take(i as int)),
        decreases n - i,
    {
        assert(all.take(i + 1).drop_last() =~= all.take(i as int));
        let parts = split_words(list[i].as_str());
        if parts.len() > 0 {
            assert(words(all[i as int])[0] == parts@[0]@);
            push_string(&mut out, owned(parts[0].as_str()));
        }
        i += 1;
    }
    assert(all.take(n as int) =~= all);
    out
}

/// The first helper for the user repository that is installed.
pub open spec fn preferred_helper(paru: bool, yay: bool, pikaur: bool) -> Option<Helper> {
    if paru {
        Some(Helper::Paru)
    } else if yay {
        Some(Helper::Yay)
    } else if pikaur {
        Some(Helper::Pikaur)
    } else {
        None
    }
}

pub fn aur_helper(paru: bool, yay: bool, pikaur: bool) -> (r: Option<Helper>)
    ensures
        r == preferred_helper(paru, yay, pikaur),
{
    if paru {
        Some(Helper::Paru)
    } else if yay {
        Some(Helper::Yay)
    } else if pikaur {
        Some(Helper::Pikaur)
    } else {
        None
    }
}

/// Whether the global JavaScript packages are the user's own, so that they count:
/// from what `npm root -g` prints, and the owner of that directory.
pub open spec fn npm_owned(root: Seq<char>, me: u32, owner: Option<Owner>) -> bool {
    trimmed(root, CharClass::Space).len() > 0 && writable(me, owner)
}

pub fn npm_counted(root: &str, me: u32, owner: Option<Owner>) -> (r: bool)
    ensures
        r == npm_owned(root@, me, owner),
{
    !trim(root).as_str().is_empty() && user_writable(me, owner)
}

/// While a check is under way no other starts, and the state is left alone; once
/// it has ended the next may start, and there is something to show.
pub proof fn law_one_check_at_a_time(
    state: UpdatesInfo,
    done: UpdatesInfo,
    listings: Listings,
    now: u64,
)
    requires
        done.reports(listings, now),
    ensures
        !state.begun().idle(),
        state.begun().begun() == state.begun(),
        done.idle(),
        done.lines@.len() > 0,
{
    assert(done.lines.deep_view().len() == done.lines@.len());
}

/// Global JavaScript packages that are not the user's own are not counted,
/// whatever is listed as outdated.
pub proof fn law_npm_counted_where_owned(l: Listings, npm: NpmProbe, outdated: String)
    requires
        l.npm == Some(npm),
        !npm_owned(npm.root@, npm.me, npm.owner),
    ensures
        found_lines(l).contains("NPM (Global):      managed by pacman"@),
        found_lines(l) == found_lines(
            (Listings { npm: Some(NpmProbe { outdated, ..npm }), ..l }),
        ),
{
    let k = found_lines((Listings { npm: None, ..l })).len() - l.others@.len();
    assert(found_lines(l)[k] == "NPM (Global):      managed by pacman"@);
}

/// Each further package manager that was found has its line on the page.
pub proof fn law_further_managers_shown(l: Listings, i: int)
    requires
        0 <= i < l.others@.len(),
    ensures
        update_lines(l).contains(
            manager_line(
                l.others@[i].manager.label(),
                pending(
                    l.others@[i].manager.bodies(l.others@[i].outputs.deep_view()),
                    l.others@[i].manager.marker(),
                ),
            ),
        ),
{
    let k = found_lines(l).len() - l.others@.len() + i;
    assert(other_lines(l.others@)[i] == other_line(l.others@[i]));
    assert(update_lines(l)[k] == other_line(l.others@[i]));
}

/// Every package manager that was found has a line, and no other has.
pub proof fn law_a_line_for_each_manager(l: Listings)
    ensures
        found_lines(l).len() == (if l.pacman is Some {
            1int
        } else {
            0
        }) + (if l.aur.paru || l.aur.yay || l.aur.pikaur {
            1int
        } else {
            0
        }) + (if l.flatpak is Some {
            1int
        } else {
            0
        }) + (if l.npm is Some {
            1int
        } else {
            0
        }) + l.others@.len(),
        update_lines(l).len() > 0,
{
}

// ---------------------------------------------------------------------------
// what the counts and lines mean

/// Updates are counted line by line: a line counts where it holds anything but white
/// space, and the marker where there is one.
pub proof fn law_pending(
    a: Seq<Seq<char>>,
    b: Seq<Seq<char>>,
    line: Seq<char>,
    marker: Option<Seq<char>>,
)
    ensures
        pending(Seq::empty(), marker) == 0,
        pending(a + b, marker) == pending(a, marker) + pending(b, marker),
        pending(seq![line], marker) == (if (exists|i: int|
            0 <= i < line.len() && !is_space(#[trigger] line[i])) && (marker matches Some(m)
            ==> contains(line, m)) {
            1nat
        } else {
            0
        }),
    decreases b.len(),
{
    assert(seq![line].drop_last() =~= Seq::<Seq<char>>::empty());
    assert(seq![line].last() == line);
    law_blank(line);
    let filled = exists|i: int| 0 <= i < line.len() && !is_space(#[trigger] line[i]);
    assert(is_update(line, marker) <==> filled && (marker matches Some(m) ==> contains(line, m)));
    assert(pending(Seq::<Seq<char>>::empty(), marker) == 0);
    assert(pending(seq![line], marker) == if is_update(line, marker) {
        1nat
    } else {
        0
    });
    if b.len() == 0 {
        assert(a + b =~= a);
    } else {
        law_pending(a, b.drop_last(), line, marker);
        assert((a + b).drop_last() =~= a + b.drop_last());
        assert((a + b).last() == b.last());
    }
}

/// Each of the first four package managers has its line where it was found: its name,
/// the number of its updates, and the word for them. npm is counted only where it is
/// the user's own.
pub proof fn law_lines_of_managers(l: Listings)
    ensures
        ({
            let page = update_lines(l);
            let count = |out: Seq<char>| decimal(pending(lines(out), None)) + " updates"@;
            &&& l.pacman matches Some(out) ==> page.contains(
                "Pacman (Official): "@ + count(out@),
            )
            &&& l.aur.paru ==> page.contains("AUR ("@ + "paru"@ + "):        "@ + count(l.aur.output@))
            &&& !l.aur.paru && l.aur.yay ==> page.contains(
                "AUR ("@ + "yay"@ + "):        "@ + count(l.aur.output@),
            )
            &&& !l.aur.paru && !l.aur.yay && l.aur.pikaur ==> page.contains(
                "AUR ("@ + "pikaur"@ + "):        "@ + count(l.aur.output@),
            )
            &&& l.flatpak matches Some(out) ==> page.contains(
                "Flatpak:           "@ + count(out@),
            )
            &&& l.npm matches Some(npm) ==> page.contains(
                if npm_owned(npm.root@, npm.me, npm.owner) {
                    "NPM (Global):      "@ + count(npm.outdated@)
                } else {
                    "NPM (Global):      managed by pacman"@
                },
            )
            &&& l.pacman is None && !l.aur.paru && !l.aur.yay && !l.aur.pikaur && l.flatpak is None
                && l.npm is None && l.others@.len() == 0 ==> page
                == seq!["No supported package managers found"@]
        }),
{
    let page = update_lines(l);
    let a: int = if l.pacman is Some {
        1
    } else {
        0
    };
    let b: int = if l.aur.paru || l.aur.yay || l.aur.pikaur {
        a + 1
    } else {
        a
    };
    let c: int = if l.flatpak is Some {
        b + 1
    } else {
        b
    };
    let count = |out: Seq<char>| decimal(pending(lines(out), None)) + " updates"@;
    if let Some(out) = l.pacman {
        assert("Pacman (Official): "@ + count(out@) =~= page[0]);
    }
    if let Some(helper) = preferred_helper(l.aur.paru, l.aur.yay, l.aur.pikaur) {
        assert("AUR ("@ + helper.name() + "):        "@ + count(l.aur.output@) =~= page[a]);
    }
    if let Some(out) = l.flatpak {
        assert("Flatpak:           "@ + count(out@) =~= page[b]);
    }
    if let Some(npm) = l.npm {
        assert("NPM (Global):      "@ + count(npm.outdated@) =~= manager_line(
            "NPM (Global):      "@,
            pending(lines(npm.outdated@), None),
        ));
        assert(page[c] == (if npm_owned(npm.root@, npm.me, npm.owner) {
            "NPM (Global):      "@ + count(npm.outdated@)
        } else {
            "NPM (Global):      managed by pacman"@
        }));
    }
}

/// The listings of pip and of pipx start with a heading of two lines, which lists no
/// update; all lines of the others may. Several outputs are taken one after the other.
pub proof fn law_bodies(
    m: Manager,
    a: Seq<Seq<char>>,
    b: Seq<Seq<char>>,
    x: Seq<char>,
    y: Seq<char>,
    rest: Seq<Seq<char>>,
)
    ensures
        m.bodies(a + b) == m.bodies(a) + m.bodies(b),
        m.bodies(Seq::empty()) == Seq::<Seq<char>>::empty(),
        m.bodies(seq![x]) == m.body(lines(x)),
        m == Manager::Pip || m == Manager::Pipx ==> m.body(seq![x, y] + rest) == rest && m.body(
            seq![x],
        ) == Seq::<Seq<char>>::empty() && m.body(Seq::empty()) == Seq::<Seq<char>>::empty(),
        m != Manager::Pip && m != Manager::Pipx ==> m.body(rest) == rest,
    decreases b.len(),
{
    assert(m.bodies(Seq::empty()) =~= Seq::<Seq<char>>::empty());
    assert(seq![x].drop_last() =~= Seq::<Seq<char>>::empty());
    assert(seq![x].last() == x);
    assert(m.bodies(seq![x]) =~= m.body(lines(x)));
    if m == Manager::Pip || m == Manager::Pipx {
        assert(m.body(seq![x, y] + rest) =~= rest);
    }
    if b.len() == 0 {
        assert(a + b =~= a);
        assert(m.bodies(a) + m.bodies(b) =~= m.bodies(a));
    } else {
        law_bodies(m, a, b.drop_last(), x, y, rest);
        assert((a + b).drop_last() =~= a + b.drop_last());
        assert((a + b).last() == b.last());
        assert(m.bodies(a + b) =~= m.bodies(a) + m.bodies(b));
    }
}

/// The packages of pipx are the first words of the lines, in their order.
pub proof fn law_first_words(a: Seq<Seq<char>>, b: Seq<Seq<char>>, line: Seq<char>)
    ensures
        first_words(a + b) == first_words(a) + first_words(b),
        first_words(seq![line]) == (if words(line).len() > 0 {
            seq![words(line)[0]]
        } else {
            Seq::empty()
        }),
    decreases b.len(),
{
    assert(first_words(Seq::empty()) =~= Seq::<Seq<char>>::empty());
    assert(seq![line].drop_last() =~= Seq::<Seq<char>>::empty());
    assert(seq![line].last() == line);
    assert(Seq::<Seq<char>>::empty().push(words(line)[0]) =~= seq![words(line)[0]]);
    if b.len() == 0 {
        assert(a + b =~= a);
        assert(first_words(a) + first_words(b) =~= first_words(a));
    } else {
        law_first_words(a, b.drop_last(), line);
        assert((a + b).drop_last() =~= a + b.drop_last());
        assert((a + b).last() == b.last());
        assert(first_words(a + b) =~= first_words(a) + first_words(b));
    }
}

/// npm's packages count where it tells their place and the user may write there.
pub proof fn law_npm_owned(root: Seq<char>, me: u32, owner: Option<Owner>)
    ensures
        npm_owned(root, me, owner) <==> (exists|i: int|
            0 <= i < root.len() && !is_space(#[trigger] root[i])) && writable(me, owner),
{
    law_blank(root);
}

} // verus!
