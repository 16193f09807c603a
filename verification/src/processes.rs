//! Process enforcer: which running processes a blocklist condemns, and the
//! safety whitelist that no blocklist overrides.
//!
//! Names are compared without regard to case: two names are the same where
//! their lowercase forms are equal.

use crate::process_list::{first_of_its_name, name_listed, sort_by_name, sort_key, sorted_by_name};
use vstd::prelude::*;
use vstd::string::*;

verus! {

/// A running process: its id and its name.
#[derive(Debug)]
pub struct RunningProcess {
    pub pid: u32,
    pub name: String,
}

impl Clone for RunningProcess {
    fn clone(&self) -> (r: Self)
        ensures
            r == *self,
    {
        RunningProcess { pid: self.pid, name: self.name.clone() }
    }
}

/// An application that can be put on the blocklist.
#[derive(Debug)]
pub struct InstalledApp {
    pub name: String,
    pub id: String,
}

impl Clone for InstalledApp {
    fn clone(&self) -> (r: Self)
        ensures
            r == *self,
    {
        InstalledApp { name: self.name.clone(), id: self.id.clone() }
    }
}

/// Why a blocking operation was refused or failed.
#[derive(Debug)]
pub struct BlockingError {
    pub message: String,
}

/// The table of processes of the operating system, as `sysinfo` holds it.
#[verifier::external_type_specification]
#[verifier::external_body]
pub struct ExSystem(sysinfo::System);

/// The lowercase form that `str::to_lowercase` gives of a text.
pub uninterp spec fn lowercase(text: Seq<char>) -> Seq<char>;

/// The processes that a table holds, each as its id and its name.
pub uninterp spec fn table_of(system: sysinfo::System) -> Set<(u32, Seq<char>)>;

/// A process as the table holds it: its id and its name.
pub open spec fn entry_of(process: RunningProcess) -> (u32, Seq<char>) {
    (process.pid, process.name@)
}

/// Whether `table` holds a process with the id `pid`.
pub open spec fn holds_pid(table: Set<(u32, Seq<char>)>, pid: u32) -> bool {
    exists|name: Seq<char>| table.contains((pid, name))
}

/// Whether `list` is a listing of `table`: every process of the list is one
/// of the table, and every process of the table is in the list.
pub open spec fn lists_table(list: Seq<RunningProcess>, table: Set<(u32, Seq<char>)>) -> bool {
    &&& forall|i: int| 0 <= i < list.len() ==> table.contains(entry_of(#[trigger] list[i]))
    &&& forall|entry: (u32, Seq<char>)| #[trigger]
        table.contains(entry) ==> exists|i: int|
            0 <= i < list.len() && entry_of(#[trigger] list[i]) == entry
}

/// Whether every character of `text` is an ASCII character.
pub open spec fn is_ascii_text(text: Seq<char>) -> bool {
    forall|i: int| 0 <= i < text.len() ==> (#[trigger] text[i]) as u32 <= 0x7F
}

/// `c` with an ASCII capital letter turned into its small letter.
pub open spec fn ascii_lower(c: char) -> char {
    if 0x41 <= c as u32 <= 0x5A {
        ((c as u32) + 0x20) as char
    } else {
        c
    }
}

/// `text` with each ASCII capital letter turned into its small letter.
pub open spec fn ascii_lowercase(text: Seq<char>) -> Seq<char> {
    Seq::new(text.len(), |i: int| ascii_lower(text[i]))
}

/// Calls `str::to_lowercase`. The contract names the text it gives, and
/// claims that of a text of ASCII characters only the capital letters change,
/// each into its small letter.
#[verifier::external_body]
pub(crate) fn to_lowercase(text: &str) -> (lower: String)
    ensures
        lower@ == lowercase(text@),
        is_ascii_text(text@) ==> lower@ == ascii_lowercase(text@),
{
    text.to_lowercase()
}

/// Calls `sysinfo::System::new`: a table with nothing loaded. Nothing is
/// claimed of it.
#[verifier::external_body]
fn new_system() -> (system: sysinfo::System) {
    sysinfo::System::new()
}

/// Calls `sysinfo::System::refresh_processes` for all processes, dropping the
/// dead ones. Nothing is claimed of the table afterwards.
#[verifier::external_body]
fn refresh_all_processes(system: &mut sysinfo::System) {
    system.refresh_processes(sysinfo::ProcessesToUpdate::All, true);
}

/// Calls `sysinfo::System::processes` and hands out each process as its id
/// and name. The contract claims that the list holds the processes of the
/// table, all of them and no others; their order is left open.
#[verifier::external_body]
fn list_processes(system: &sysinfo::System) -> (list: Vec<RunningProcess>)
    ensures
        lists_table(list@, table_of(*system)),
{
    system.processes().iter().map(
        |(pid, process)|
            RunningProcess {
                pid: pid.as_u32(),
                name: process.name().to_string_lossy().to_string(),
            },
    ).collect()
}

/// Calls `sysinfo::Process::kill_with` with the terminate signal on the
/// process `pid` of the table. `None` where the table holds no such process
/// or the platform has no such signal; else whether the signal was sent.
/// The contract claims only that there is an answer for no process but one
/// of the table.
#[verifier::external_body]
fn send_terminate(system: &sysinfo::System, pid: u32) -> (sent: Option<bool>)
    ensures
        sent is Some ==> holds_pid(table_of(*system), pid),
{
    match system.process(sysinfo::Pid::from_u32(pid)) {
        Some(process) => process.kill_with(sysinfo::Signal::Term),
        None => None,
    }
}

/// Calls `sysinfo::Process::kill` on the process `pid` of the table. `None`
/// where the table holds no such process; else whether the signal was sent.
/// The contract claims only that there is an answer for no process but one
/// of the table.
#[verifier::external_body]
fn send_kill(system: &sysinfo::System, pid: u32) -> (sent: Option<bool>)
    ensures
        sent is Some ==> holds_pid(table_of(*system), pid),
{
    match system.process(sysinfo::Pid::from_u32(pid)) {
        Some(process) => Some(process.kill()),
        None => None,
    }
}

/// The names, in lowercase, of the processes that are never terminated: the
/// ones an operating system cannot do without.
pub open spec fn whitelist() -> Seq<Seq<char>> {
    seq![
        "explorer.exe"@,
        "csrss.exe"@,
        "winlogon.exe"@,
        "wininit.exe"@,
        "services.exe"@,
        "lsass.exe"@,
        "smss.exe"@,
        "svchost.exe"@,
        "dwm.exe"@,
        "system"@,
        "systemd"@,
        "init"@,
        "launchd"@,
        "kernel_task"@,
        "windowserver"@,
        "loginwindow"@,
    ]
}

/// Whether a process of this name is protected: its lowercase form is on the
/// whitelist.
pub open spec fn is_protected(name: Seq<char>) -> bool {
    whitelist().contains(lowercase(name))
}

/// Whether `blocked[i]` names the process: the two are equal without regard
/// to case.
pub open spec fn names_process(blocked: Seq<Seq<char>>, i: int, process_name: Seq<char>) -> bool {
    lowercase(blocked[i]) == lowercase(process_name)
}

/// Whether `index` is the blocked name on whose account the process is
/// terminated.
pub open spec fn is_target(blocked: Seq<Seq<char>>, process_name: Seq<char>, index: int) -> bool {
    &&& !is_protected(process_name)
    &&& 0 <= index < blocked.len()
    &&& names_process(blocked, index, process_name)
    &&& forall|j: int| 0 <= j < index ==> !names_process(blocked, j, process_name)
}

/// Whether `name` is a blocked name that condemns the processes it names: it
/// is not protected, and it is the first of `blocked` in its spelling without
/// regard to case.
pub open spec fn enforceable(blocked: Seq<Seq<char>>, name: Seq<char>) -> bool {
    exists|i: int| is_target(blocked, name, i) && blocked[i] == name
}

/// Whether no blocked name condemns the process.
pub open spec fn is_spared(blocked: Seq<Seq<char>>, process_name: Seq<char>) -> bool {
    is_protected(process_name) || forall|j: int|
        0 <= j < blocked.len() ==> !names_process(blocked, j, process_name)
}

/// The whitelist as strings.
pub fn system_whitelist() -> (names: Vec<String>)
    ensures
        names.deep_view() == whitelist(),
{
    let mut names: Vec<String> = Vec::new();
    names.push("explorer.exe".to_owned());
    names.push("csrss.exe".to_owned());
    names.push("winlogon.exe".to_owned());
    names.push("wininit.exe".to_owned());
    names.push("services.exe".to_owned());
    names.push("lsass.exe".to_owned());
    names.push("smss.exe".to_owned());
    names.push("svchost.exe".to_owned());
    names.push("dwm.exe".to_owned());
    names.push("system".to_owned());
    names.push("systemd".to_owned());
    names.push("init".to_owned());
    names.push("launchd".to_owned());
    names.push("kernel_task".to_owned());
    names.push("windowserver".to_owned());
    names.push("loginwindow".to_owned());
    assert(names.deep_view() =~= whitelist());
    names
}

fn holds(names: &[String], wanted: &String) -> (found: bool)
    ensures
        found == names.deep_view().contains(wanted@),
{
    let mut i: usize = 0;
    while i < names.len()
        invariant
            i <= names@.len(),
            forall|k: int| 0 <= k < i ==> names.deep_view()[k] != wanted@,
        decreases names@.len() - i,
    {
        if names[i] == *wanted {
            assert(names.deep_view()[i as int] == wanted@);
            return true;
        }
        i += 1;
    }
    false
}

/// Whether a process of this name is protected by the whitelist.
pub fn is_whitelisted(name: &str) -> (protected: bool)
    ensures
        protected == is_protected(name@),
        is_ascii_text(name@) ==> protected == whitelist().contains(ascii_lowercase(name@)),
{
    let lower = to_lowercase(name);
    let names = system_whitelist();
    holds(names.as_slice(), &lower)
}

/// The blocked name on whose account a process called `process_name` is
/// terminated, as its position in `blocked`; `None` where the process is
/// protected or no blocked name names it.
pub fn select_target(blocked: &[String], process_name: &str) -> (target: Option<usize>)
    ensures
        match target {
            Some(index) => is_target(blocked.deep_view(), process_name@, index as int),
            None => is_spared(blocked.deep_view(), process_name@),
        },
{
    let lower = to_lowercase(process_name);
    let names = system_whitelist();
    if holds(names.as_slice(), &lower) {
        return None;
    }
    let mut i: usize = 0;
    while i < blocked.len()
        invariant
            i <= blocked@.len(),
            lower@ == lowercase(process_name@),
            !is_protected(process_name@),
            forall|j: int| 0 <= j < i ==> !names_process(blocked.deep_view(), j, process_name@),
        decreases blocked@.len() - i,
    {
        let candidate = to_lowercase(blocked[i].as_str());
        assert(blocked.deep_view()[i as int] == blocked@[i as int]@);
        if candidate == lower {
            return Some(i);
        }
        i += 1;
    }
    None
}

/// Whether some name of `blocked` may lead to a termination at all: one that
/// is not protected.
pub fn has_enforceable_name(blocked: &[String]) -> (any: bool)
    ensures
        any == exists|i: int|
            0 <= i < blocked@.len() && !is_protected(#[trigger] blocked.deep_view()[i]),
{
    let mut i: usize = 0;
    while i < blocked.len()
        invariant
            i <= blocked@.len(),
            forall|k: int| 0 <= k < i ==> is_protected(#[trigger] blocked.deep_view()[k]),
        decreases blocked@.len() - i,
    {
        if !is_whitelisted(blocked[i].as_str()) {
            assert(!is_protected(blocked.deep_view()[i as int]));
            return true;
        }
        i += 1;
    }
    false
}

/// One by one, no two of `names` are equal, even without regard to case.
pub open spec fn distinct_names(names: Seq<Seq<char>>) -> bool {
    forall|i: int, j: int|
        0 <= i < j < names.len() ==> lowercase(#[trigger] names[i]) != lowercase(
            #[trigger] names[j],
        )
}

/// An attempt to terminate a process: the id and the name of the process, and
/// whether a signal was sent to it.
#[derive(Debug)]
pub struct Termination {
    pub pid: u32,
    pub process_name: String,
    pub sent: bool,
}

/// The blocked name on whose account a process called `process_name` is
/// terminated, as its position in `blocked`: the first that names it. A
/// protected process has none.
pub open spec fn target_of(blocked: Seq<Seq<char>>, process_name: Seq<char>) -> Option<int> {
    if exists|i: int| is_target(blocked, process_name, i) {
        Some(choose|i: int| is_target(blocked, process_name, i))
    } else {
        None
    }
}

/// The blocked names to report for `attempts`, in the order in which their
/// first process was sent a signal, each once: for every attempt that sent a
/// signal, the blocked name on whose account the process was condemned.
pub open spec fn reported(blocked: Seq<Seq<char>>, attempts: Seq<Termination>) -> Seq<Seq<char>>
    decreases attempts.len(),
{
    if attempts.len() == 0 {
        Seq::empty()
    } else {
        let before = reported(blocked, attempts.drop_last());
        match target_of(blocked, attempts.last().process_name@) {
            Some(i) => if attempts.last().sent && !before.contains(blocked[i]) {
                before.push(blocked[i])
            } else {
                before
            },
            None => before,
        }
    }
}

/// Whether every attempt of `attempts` was made on a process that a blocked
/// name condemns.
pub open spec fn all_condemned(blocked: Seq<Seq<char>>, attempts: Seq<Termination>) -> bool {
    forall|k: int|
        0 <= k < attempts.len() ==> target_of(blocked, (#[trigger] attempts[k]).process_name@)
            is Some
}

/// A process has at most one target.
pub proof fn lemma_target_unique(blocked: Seq<Seq<char>>, process_name: Seq<char>, i: int, j: int)
    requires
        is_target(blocked, process_name, i),
        is_target(blocked, process_name, j),
    ensures
        i == j,
        target_of(blocked, process_name) == Some(i),
{
    let chosen = choose|k: int| is_target(blocked, process_name, k);
    if i < chosen {
        assert(names_process(blocked, i, process_name));
    }
    if chosen < i {
        assert(names_process(blocked, chosen, process_name));
    }
    if i < j {
        assert(names_process(blocked, i, process_name));
    }
    if j < i {
        assert(names_process(blocked, j, process_name));
    }
}

/// A process that is spared has no target.
pub proof fn lemma_spared_has_no_target(blocked: Seq<Seq<char>>, process_name: Seq<char>)
    requires
        is_spared(blocked, process_name),
    ensures
        target_of(blocked, process_name) is None,
{
    if exists|i: int| is_target(blocked, process_name, i) {
        let i = choose|i: int| is_target(blocked, process_name, i);
        assert(names_process(blocked, i, process_name));
    }
}

/// The target of a process is enforceable: a blocked name that is not
/// protected and the first of its spelling.
proof fn lemma_target_enforceable(blocked: Seq<Seq<char>>, process_name: Seq<char>, index: int)
    requires
        is_target(blocked, process_name, index),
    ensures
        enforceable(blocked, blocked[index]),
{
    assert(lowercase(blocked[index]) == lowercase(process_name));
    assert forall|j: int| 0 <= j < index implies !names_process(blocked, j, blocked[index]) by {
        assert(!names_process(blocked, j, process_name));
    }
    assert(is_target(blocked, blocked[index], index));
}

/// Two enforceable names that are equal without regard to case are the same.
proof fn lemma_enforceable_distinct(blocked: Seq<Seq<char>>, a: Seq<char>, b: Seq<char>)
    requires
        enforceable(blocked, a),
        enforceable(blocked, b),
        lowercase(a) == lowercase(b),
    ensures
        a == b,
{
    let i = choose|i: int| is_target(blocked, a, i) && blocked[i] == a;
    let j = choose|j: int| is_target(blocked, b, j) && blocked[j] == b;
    if i < j {
        assert(names_process(blocked, i, b));
    }
    if j < i {
        assert(names_process(blocked, j, a));
    }
}

/// Every reported name is one of the blocked names and is not protected, and
/// no name is reported twice, whatever the attempts were: a name on the
/// whitelist is never reported.
pub proof fn law_reported_never_protected(blocked: Seq<Seq<char>>, attempts: Seq<Termination>)
    ensures
        forall|k: int|
            0 <= k < reported(blocked, attempts).len() ==> enforceable(
                blocked,
                #[trigger] reported(blocked, attempts)[k],
            ),
        forall|k: int|
            0 <= k < reported(blocked, attempts).len() ==> blocked.contains(
                #[trigger] reported(blocked, attempts)[k],
            ) && !is_protected(reported(blocked, attempts)[k]),
        distinct_names(reported(blocked, attempts)),
    decreases attempts.len(),
{
    let names = reported(blocked, attempts);
    if attempts.len() > 0 {
        let before = reported(blocked, attempts.drop_last());
        law_reported_never_protected(blocked, attempts.drop_last());
        match target_of(blocked, attempts.last().process_name@) {
            Some(i) => {
                if attempts.last().sent && !before.contains(blocked[i]) {
                    lemma_target_enforceable(blocked, attempts.last().process_name@, i);
                    assert forall|k: int| 0 <= k < names.len() implies enforceable(
                        blocked,
                        #[trigger] names[k],
                    ) by {
                        if k < before.len() {
                            assert(names[k] == before[k]);
                        }
                    }
                    assert forall|a: int, b: int| 0 <= a < b < names.len() implies lowercase(
                        #[trigger] names[a],
                    ) != lowercase(#[trigger] names[b]) by {
                        assert(names[a] == before[a]);
                        if b < before.len() {
                            assert(names[b] == before[b]);
                        } else if lowercase(names[a]) == lowercase(names[b]) {
                            lemma_enforceable_distinct(blocked, names[a], names[b]);
                            assert(before.contains(blocked[i]));
                        }
                    }
                }
            },
            None => {},
        }
    }
    assert forall|k: int| 0 <= k < names.len() implies blocked.contains(#[trigger] names[k])
        && !is_protected(names[k]) by {
        assert(enforceable(blocked, names[k]));
        let i = choose|i: int| is_target(blocked, names[k], i) && blocked[i] == names[k];
        assert(blocked[i] == names[k]);
    }
}

/// The blocked names to report for `attempts`.
pub fn reported_names(blocked: &[String], attempts: &[Termination]) -> (names: Vec<String>)
    ensures
        names.deep_view() == reported(blocked.deep_view(), attempts@),
{
    let mut names: Vec<String> = Vec::new();
    let mut k: usize = 0;
    while k < attempts.len()
        invariant
            k <= attempts@.len(),
            names.deep_view() == reported(blocked.deep_view(), attempts@.subrange(0, k as int)),
        decreases attempts@.len() - k,
    {
        let ghost before = names.deep_view();
        let ghost wanted = blocked.deep_view();
        assert(attempts@.subrange(0, k + 1).drop_last() =~= attempts@.subrange(0, k as int));
        assert(attempts@.subrange(0, k + 1).last() == attempts@[k as int]);
        match select_target(blocked, attempts[k].process_name.as_str()) {
            Some(index) => {
                proof {
                    lemma_target_unique(
                        wanted,
                        attempts@[k as int].process_name@,
                        index as int,
                        index as int,
                    );
                }
                assert(wanted[index as int] == blocked@[index as int]@);
                if attempts[k].sent && !holds(names.as_slice(), &blocked[index]) {
                    names.push(blocked[index].clone());
                    assert(names.deep_view() =~= before.push(wanted[index as int]));
                }
            },
            None => {
                proof {
                    lemma_spared_has_no_target(wanted, attempts@[k as int].process_name@);
                }
            },
        }
        k += 1;
    }
    assert(attempts@.subrange(0, k as int) =~= attempts@);
    names
}

/// Terminates `process`: first by the terminate signal, and by the kill signal
/// where the platform has no terminate signal. Tells whether a signal was
/// sent. Only a process of the table whose name is not on the whitelist may
/// be handed to it.
fn terminate(system: &sysinfo::System, process: &RunningProcess) -> (sent: bool)
    requires
        table_of(*system).contains(entry_of(*process)),
        !is_protected(process.name@),
    ensures
        sent ==> holds_pid(table_of(*system), process.pid),
{
    match send_terminate(system, process.pid) {
        Some(sent) => sent,
        None => match send_kill(system, process.pid) {
            Some(sent) => sent,
            None => false,
        },
    }
}

/// Reads the table of processes of the operating system, once and afresh.
fn snapshot() -> (system: sysinfo::System) {
    let mut system = new_system();
    refresh_all_processes(&mut system);
    system
}

/// The names of the processes of `list` that a blocked name condemns, in the
/// order of the list, one for each such process.
pub open spec fn condemned(blocked: Seq<Seq<char>>, list: Seq<RunningProcess>) -> Seq<Seq<char>>
    decreases list.len(),
{
    if list.len() == 0 {
        Seq::empty()
    } else if target_of(blocked, list.last().name@) is Some {
        condemned(blocked, list.drop_last()).push(list.last().name@)
    } else {
        condemned(blocked, list.drop_last())
    }
}

/// The processes of `list` that a blocked name condemns, in the order of the
/// list.
pub open spec fn condemned_list(
    blocked: Seq<Seq<char>>,
    list: Seq<RunningProcess>,
) -> Seq<RunningProcess>
    decreases list.len(),
{
    if list.len() == 0 {
        Seq::empty()
    } else if target_of(blocked, list.last().name@) is Some {
        condemned_list(blocked, list.drop_last()).push(list.last())
    } else {
        condemned_list(blocked, list.drop_last())
    }
}

/// Whether `attempts` are attempts on `targets`, one on each in their order:
/// each attempt carries the id and the name of its process.
pub open spec fn attempts_match(targets: Seq<RunningProcess>, attempts: Seq<Termination>) -> bool {
    &&& attempts.len() == targets.len()
    &&& forall|k: int|
        0 <= k < attempts.len() ==> (#[trigger] attempts[k]).pid == targets[k].pid
            && attempts[k].process_name@ == targets[k].name@
}

/// Whether `attempts` are the attempts of one enforcement on `list`: one for
/// each process that a blocked name condemns, with its id and its name, in
/// the order of the list, and none for any other process.
pub open spec fn attempts_on(
    blocked: Seq<Seq<char>>,
    list: Seq<RunningProcess>,
    attempts: Seq<Termination>,
) -> bool {
    attempts_match(condemned_list(blocked, list), attempts)
}

/// The condemned names are the names of the condemned processes.
pub proof fn lemma_condemned_names(blocked: Seq<Seq<char>>, list: Seq<RunningProcess>)
    ensures
        condemned(blocked, list).len() == condemned_list(blocked, list).len(),
        forall|k: int|
            0 <= k < condemned(blocked, list).len() ==> #[trigger] condemned(blocked, list)[k]
                == condemned_list(blocked, list)[k].name@,
    decreases list.len(),
{
    if list.len() > 0 {
        lemma_condemned_names(blocked, list.drop_last());
    }
}

/// Every condemned process is a process of the list that is not protected.
pub proof fn lemma_condemned_list(blocked: Seq<Seq<char>>, list: Seq<RunningProcess>)
    ensures
        forall|k: int|
            0 <= k < condemned_list(blocked, list).len() ==> list.contains(
                #[trigger] condemned_list(blocked, list)[k],
            ) && !is_protected(condemned_list(blocked, list)[k].name@),
    decreases list.len(),
{
    if list.len() > 0 {
        let head = list.drop_last();
        let targets = condemned_list(blocked, list);
        let before = condemned_list(blocked, head);
        lemma_condemned_list(blocked, head);
        assert forall|k: int| 0 <= k < targets.len() implies list.contains(#[trigger] targets[k])
            && !is_protected(targets[k].name@) by {
            if k < before.len() {
                assert(targets[k] == before[k]);
                assert(head.contains(before[k]));
                let i = choose|i: int| 0 <= i < head.len() && head[i] == before[k];
                assert(list[i] == head[i]);
            } else {
                assert(targets[k] == list[list.len() - 1]);
                let t = target_of(blocked, list.last().name@)->Some_0;
                assert(is_target(blocked, list.last().name@, t));
            }
        }
    }
}

/// Whether `name` is the name of a process of `list` that a blocked name
/// condemns.
pub open spec fn condemned_in(
    blocked: Seq<Seq<char>>,
    list: Seq<RunningProcess>,
    name: Seq<char>,
) -> bool {
    exists|i: int|
        0 <= i < list.len() && (#[trigger] list[i]).name@ == name && target_of(blocked, name)
            is Some
}

/// Whether `attempts` holds an attempt on a process called `name`.
pub open spec fn attempted(attempts: Seq<Termination>, name: Seq<char>) -> bool {
    exists|k: int| 0 <= k < attempts.len() && (#[trigger] attempts[k]).process_name@ == name
}

/// Every condemned name is the name of a process of the list that has a
/// target, and every such process has its name among the condemned.
pub proof fn lemma_condemned(blocked: Seq<Seq<char>>, list: Seq<RunningProcess>)
    ensures
        forall|k: int|
            0 <= k < condemned(blocked, list).len() ==> condemned_in(
                blocked,
                list,
                #[trigger] condemned(blocked, list)[k],
            ),
        forall|i: int|
            0 <= i < list.len() && target_of(blocked, (#[trigger] list[i]).name@) is Some
                ==> condemned(blocked, list).contains(list[i].name@),
    decreases list.len(),
{
    if list.len() > 0 {
        let head = list.drop_last();
        let names = condemned(blocked, list);
        let before = condemned(blocked, head);
        lemma_condemned(blocked, head);
        let last = list.len() - 1;
        assert forall|k: int| 0 <= k < names.len() implies condemned_in(
            blocked,
            list,
            #[trigger] names[k],
        ) by {
            if k < before.len() {
                assert(names[k] == before[k]);
                assert(condemned_in(blocked, head, before[k]));
                let i = choose|i: int|
                    0 <= i < head.len() && (#[trigger] head[i]).name@ == before[k] && target_of(
                        blocked,
                        before[k],
                    ) is Some;
                assert(list[i] == head[i]);
            } else {
                assert(list[last].name@ == names[k]);
            }
        }
        assert forall|i: int|
            0 <= i < list.len() && target_of(
                blocked,
                (#[trigger] list[i]).name@,
            ) is Some implies names.contains(list[i].name@) by {
            if i < last {
                assert(head[i] == list[i]);
                assert(before.contains(head[i].name@));
                let k = choose|k: int| 0 <= k < before.len() && before[k] == head[i].name@;
                assert(names[k] == before[k]);
            } else {
                assert(names[names.len() - 1] == list[i].name@);
            }
        }
    }
}

/// The attempts of an enforcement fall on the condemned processes of the list
/// and on no others: every attempt is on a process of the list that a blocked
/// name condemns, and every such process has its attempt.
pub proof fn law_attempts_cover_the_condemned(
    blocked: Seq<Seq<char>>,
    list: Seq<RunningProcess>,
    attempts: Seq<Termination>,
)
    requires
        attempts_on(blocked, list, attempts),
    ensures
        all_condemned(blocked, attempts),
        forall|k: int|
            0 <= k < attempts.len() ==> condemned_in(
                blocked,
                list,
                (#[trigger] attempts[k]).process_name@,
            ),
        forall|i: int|
            0 <= i < list.len() && target_of(blocked, (#[trigger] list[i]).name@) is Some
                ==> attempted(attempts, list[i].name@),
{
    lemma_condemned(blocked, list);
    lemma_condemned_names(blocked, list);
    let names = condemned(blocked, list);
    assert forall|k: int| 0 <= k < attempts.len() implies condemned_in(
        blocked,
        list,
        (#[trigger] attempts[k]).process_name@,
    ) by {
        assert(attempts[k].process_name@ == names[k]);
        assert(condemned_in(blocked, list, names[k]));
    }
    assert forall|i: int|
        0 <= i < list.len() && target_of(
            blocked,
            (#[trigger] list[i]).name@,
        ) is Some implies attempted(attempts, list[i].name@) by {
        assert(names.contains(list[i].name@));
        let k = choose|k: int| 0 <= k < names.len() && names[k] == list[i].name@;
        assert(attempts[k].process_name@ == names[k]);
    }
}

/// Whether `attempt` sent a signal on account of the blocked name `name`.
pub open spec fn sent_for(blocked: Seq<Seq<char>>, attempt: Termination, name: Seq<char>) -> bool {
    &&& attempt.sent
    &&& target_of(blocked, attempt.process_name@) is Some
    &&& blocked[target_of(blocked, attempt.process_name@)->Some_0] == name
}

/// A blocked name is reported exactly where an attempt sent a signal on its
/// account.
pub proof fn law_reported_are_the_sent(blocked: Seq<Seq<char>>, attempts: Seq<Termination>)
    ensures
        forall|r: int|
            0 <= r < reported(blocked, attempts).len() ==> exists|k: int|
                0 <= k < attempts.len() && sent_for(
                    blocked,
                    #[trigger] attempts[k],
                    #[trigger] reported(blocked, attempts)[r],
                ),
        forall|k: int, name: Seq<char>|
            0 <= k < attempts.len() && sent_for(blocked, #[trigger] attempts[k], name)
                ==> #[trigger] reported(blocked, attempts).contains(name),
    decreases attempts.len(),
{
    if attempts.len() > 0 {
        let head = attempts.drop_last();
        let last = attempts.len() - 1;
        let names = reported(blocked, attempts);
        let before = reported(blocked, head);
        law_reported_are_the_sent(blocked, head);
        assert forall|r: int| 0 <= r < names.len() implies exists|k: int|
            0 <= k < attempts.len() && sent_for(blocked, #[trigger] attempts[k], #[trigger] names[r]) by {
            if r < before.len() {
                assert(names[r] == before[r]);
                let k = choose|k: int|
                    0 <= k < head.len() && sent_for(blocked, #[trigger] head[k], before[r]);
                assert(attempts[k] == head[k]);
            } else {
                assert(sent_for(blocked, attempts[last], names[r]));
            }
        }
        assert forall|k: int, name: Seq<char>|
            0 <= k < attempts.len() && sent_for(
                blocked,
                #[trigger] attempts[k],
                name,
            ) implies #[trigger] names.contains(name) by {
            if k < last {
                assert(head[k] == attempts[k]);
                assert(before.contains(name));
                let r = choose|r: int| 0 <= r < before.len() && before[r] == name;
                assert(names[r] == before[r]);
            } else if before.contains(name) {
                let r = choose|r: int| 0 <= r < before.len() && before[r] == name;
                assert(names[r] == before[r]);
            } else {
                assert(names[names.len() - 1] == name);
            }
        }
    }
}

/// A reported name names a process of the table that was read: the table
/// holds a process of that name, without regard to case.
pub proof fn law_reported_runs(
    blocked: Seq<Seq<char>>,
    list: Seq<RunningProcess>,
    table: Set<(u32, Seq<char>)>,
    attempts: Seq<Termination>,
    r: int,
)
    requires
        lists_table(list, table),
        attempts_on(blocked, list, attempts),
        0 <= r < reported(blocked, attempts).len(),
    ensures
        runs_in(table, reported(blocked, attempts)[r]),
{
    law_reported_are_the_sent(blocked, attempts);
    law_attempts_cover_the_condemned(blocked, list, attempts);
    let name = reported(blocked, attempts)[r];
    let k = choose|k: int| 0 <= k < attempts.len() && sent_for(blocked, #[trigger] attempts[k], name);
    assert(condemned_in(blocked, list, attempts[k].process_name@));
    let i = choose|i: int|
        0 <= i < list.len() && (#[trigger] list[i]).name@ == attempts[k].process_name@
            && target_of(blocked, attempts[k].process_name@) is Some;
    let t = target_of(blocked, attempts[k].process_name@)->Some_0;
    assert(is_target(blocked, attempts[k].process_name@, t));
    assert(table.contains(entry_of(list[i])));
    assert(lowercase(entry_of(list[i]).1) == lowercase(name));
}

/// The processes of `processes` that a blocked name condemns, in the order of
/// the list: those that `select_target` gives a target.
pub fn condemned_processes(blocked: &[String], processes: &[RunningProcess]) -> (targets: Vec<
    RunningProcess,
>)
    ensures
        targets@ == condemned_list(blocked.deep_view(), processes@),
{
    let ghost wanted = blocked.deep_view();
    let mut targets: Vec<RunningProcess> = Vec::new();
    let mut p: usize = 0;
    while p < processes.len()
        invariant
            p <= processes@.len(),
            wanted == blocked.deep_view(),
            targets@ == condemned_list(wanted, processes@.subrange(0, p as int)),
        decreases processes@.len() - p,
    {
        proof {
            assert(processes@.subrange(0, p + 1).drop_last() =~= processes@.subrange(0, p as int));
            assert(processes@.subrange(0, p + 1).last() == processes@[p as int]);
        }
        match select_target(blocked, processes[p].name.as_str()) {
            Some(index) => {
                proof {
                    lemma_target_unique(wanted, processes@[p as int].name@, index as int, index as int);
                }
                targets.push(processes[p].clone());
            },
            None => {
                proof {
                    lemma_spared_has_no_target(wanted, processes@[p as int].name@);
                }
            },
        }
        p += 1;
    }
    assert(processes@.subrange(0, p as int) =~= processes@);
    targets
}

/// Attempts to terminate every process of `targets`, in their order, and tells
/// of each attempt whether a signal was sent. Only processes of the table
/// whose names are not on the whitelist may be handed to it.
fn attempt_all(system: &sysinfo::System, targets: &[RunningProcess]) -> (attempts: Vec<Termination>)
    requires
        forall|k: int|
            0 <= k < targets@.len() ==> table_of(*system).contains(entry_of(#[trigger] targets@[k]))
                && !is_protected(targets@[k].name@),
    ensures
        attempts_match(targets@, attempts@),
{
    let mut attempts: Vec<Termination> = Vec::new();
    let mut k: usize = 0;
    while k < targets.len()
        invariant
            k <= targets@.len(),
            forall|j: int|
                0 <= j < targets@.len() ==> table_of(*system).contains(
                    entry_of(#[trigger] targets@[j]),
                ) && !is_protected(targets@[j].name@),
            attempts_match(targets@.subrange(0, k as int), attempts@),
        decreases targets@.len() - k,
    {
        let target = &targets[k];
        let ghost before = attempts@;
        let sent = terminate(system, target);
        attempts.push(Termination { pid: target.pid, process_name: target.name.clone(), sent });
        proof {
            assert forall|j: int| 0 <= j < attempts@.len() implies (#[trigger] attempts@[j]).pid
                == targets@.subrange(0, k + 1)[j].pid && attempts@[j].process_name@
                == targets@.subrange(0, k + 1)[j].name@ by {
                if j < before.len() {
                    assert(attempts@[j] == before[j]);
                    assert(targets@.subrange(0, k as int)[j] == targets@[j]);
                }
            }
        }
        k += 1;
    }
    assert(targets@.subrange(0, k as int) =~= targets@);
    attempts
}

/// Terminates the running processes that `blocked_apps` names and reports, once
/// each, the blocked names for which a process was sent a signal.
///
/// Where every blocked name is protected, no table is read and nothing is
/// reported. Else the table of processes is read once; there is one attempt
/// for each process of it that a blocked name condemns, and none for any
/// other; and the report is that of those attempts. A process whose name is
/// on the whitelist is never condemned and never reported, whatever
/// `blocked_apps` holds.
pub fn enforce_app_blocks(blocked_apps: &[String]) -> (killed: Vec<String>)
    ensures
        (exists|i: int|
            0 <= i < blocked_apps@.len() && !is_protected(#[trigger] blocked_apps.deep_view()[i]))
            ==> exists|system: sysinfo::System, list: Seq<RunningProcess>, attempts: Seq<Termination>|
            #![trigger lists_table(list, table_of(system)), reported(blocked_apps.deep_view(), attempts)]
            lists_table(list, table_of(system)) && attempts_on(
                blocked_apps.deep_view(),
                list,
                attempts,
            ) && killed.deep_view() == reported(blocked_apps.deep_view(), attempts),
        (forall|i: int|
            0 <= i < blocked_apps@.len() ==> is_protected(#[trigger] blocked_apps.deep_view()[i]))
            ==> killed@.len() == 0,
        forall|k: int|
            0 <= k < killed@.len() ==> blocked_apps.deep_view().contains(
                #[trigger] killed.deep_view()[k],
            ) && !is_protected(killed.deep_view()[k]),
        distinct_names(killed.deep_view()),
{
    let ghost blocked = blocked_apps.deep_view();
    if !has_enforceable_name(blocked_apps) {
        return Vec::new();
    }
    let system = snapshot();
    let processes = list_processes(&system);
    let targets = condemned_processes(blocked_apps, processes.as_slice());
    proof {
        lemma_condemned_list(blocked, processes@);
        assert forall|k: int| 0 <= k < targets@.len() implies table_of(system).contains(
            entry_of(#[trigger] targets@[k]),
        ) && !is_protected(targets@[k].name@) by {
            assert(processes@.contains(targets@[k]));
            let i = choose|i: int| 0 <= i < processes@.len() && processes@[i] == targets@[k];
            assert(table_of(system).contains(entry_of(processes@[i])));
        }
    }
    let attempts = attempt_all(&system, targets.as_slice());
    proof {
        law_reported_never_protected(blocked, attempts@);
        assert(lists_table(processes@, table_of(system)) && attempts_on(
            blocked,
            processes@,
            attempts@,
        ));
    }
    reported_names(blocked_apps, attempts.as_slice())
}

/// Whether some process of `processes` goes by `process_name`, without regard
/// to case.
pub open spec fn runs_among(processes: Seq<RunningProcess>, process_name: Seq<char>) -> bool {
    exists|i: int|
        0 <= i < processes.len() && sort_key(#[trigger] processes[i]) == lowercase(process_name)
}

/// Whether some process of `processes` goes by `process_name`.
pub fn is_running_among(processes: &[RunningProcess], process_name: &str) -> (running: bool)
    ensures
        running == runs_among(processes@, process_name@),
{
    let wanted = to_lowercase(process_name);
    let mut i: usize = 0;
    while i < processes.len()
        invariant
            i <= processes@.len(),
            wanted@ == lowercase(process_name@),
            forall|k: int| 0 <= k < i ==> sort_key(#[trigger] processes@[k]) != wanted@,
        decreases processes@.len() - i,
    {
        let lower = to_lowercase(processes[i].name.as_str());
        if lower == wanted {
            return true;
        }
        i += 1;
    }
    false
}

/// Whether `list` shows `table` by name: every process of the list is one of
/// the table, and every name of the table, without regard to case, is the
/// name of a process of the list.
pub open spec fn shows_table(list: Seq<RunningProcess>, table: Set<(u32, Seq<char>)>) -> bool {
    &&& forall|i: int| 0 <= i < list.len() ==> table.contains(entry_of(#[trigger] list[i]))
    &&& forall|entry: (u32, Seq<char>)| #[trigger]
        table.contains(entry) ==> exists|i: int|
            0 <= i < list.len() && sort_key(#[trigger] list[i]) == lowercase(entry.1)
}

/// Whether some process of `table` goes by `process_name`, without regard to
/// case.
pub open spec fn runs_in(table: Set<(u32, Seq<char>)>, process_name: Seq<char>) -> bool {
    exists|entry: (u32, Seq<char>)| #[trigger]
        table.contains(entry) && lowercase(entry.1) == lowercase(process_name)
}

/// A listing of a table holds a process of a name where the table does.
proof fn lemma_runs_in_listing(
    list: Seq<RunningProcess>,
    table: Set<(u32, Seq<char>)>,
    process_name: Seq<char>,
)
    requires
        lists_table(list, table),
    ensures
        runs_among(list, process_name) == runs_in(table, process_name),
{
    if runs_among(list, process_name) {
        let i = choose|i: int|
            0 <= i < list.len() && sort_key(#[trigger] list[i]) == lowercase(process_name);
        assert(table.contains(entry_of(list[i])));
    }
    if runs_in(table, process_name) {
        let entry = choose|entry: (u32, Seq<char>)| #[trigger]
            table.contains(entry) && lowercase(entry.1) == lowercase(process_name);
        let i = choose|i: int| 0 <= i < list.len() && entry_of(#[trigger] list[i]) == entry;
        assert(sort_key(list[i]) == lowercase(process_name));
    }
}

/// The sorted list of a listing of a table shows the table by name.
proof fn lemma_sorted_shows_table(
    all: Seq<RunningProcess>,
    sorted: Seq<RunningProcess>,
    table: Set<(u32, Seq<char>)>,
)
    requires
        lists_table(all, table),
        forall|i: int| 0 <= i < sorted.len() ==> first_of_its_name(all, #[trigger] sorted[i]),
        forall|j: int| 0 <= j < all.len() ==> name_listed(sorted, #[trigger] all[j]),
    ensures
        shows_table(sorted, table),
{
    assert forall|i: int| 0 <= i < sorted.len() implies table.contains(
        entry_of(#[trigger] sorted[i]),
    ) by {
        assert(first_of_its_name(all, sorted[i]));
        let j = choose|j: int| 0 <= j < all.len() && #[trigger] all[j] == sorted[i];
        assert(table.contains(entry_of(all[j])));
    }
    assert forall|entry: (u32, Seq<char>)| #[trigger] table.contains(entry) implies exists|i: int|
        0 <= i < sorted.len() && sort_key(#[trigger] sorted[i]) == lowercase(entry.1) by {
        let j = choose|j: int| 0 <= j < all.len() && entry_of(#[trigger] all[j]) == entry;
        assert(name_listed(sorted, all[j]));
    }
}

/// The running processes in the order of their lowercase names, one for each
/// name: the table of processes is read afresh, and the list shows it by
/// name.
pub fn get_running_processes() -> (processes: Vec<RunningProcess>)
    ensures
        sorted_by_name(processes@),
        exists|system: sysinfo::System| #[trigger] shows_table(processes@, table_of(system)),
{
    let system = snapshot();
    let all = list_processes(&system);
    let sorted = sort_by_name(all.as_slice());
    proof {
        lemma_sorted_shows_table(all@, sorted@, table_of(system));
    }
    sorted
}

/// Whether a process of this name is running, without regard to case: the
/// table of processes is read afresh, and the answer is whether it holds a
/// process of that name.
pub fn is_process_running(process_name: &str) -> (running: bool)
    ensures
        exists|system: sysinfo::System| running == #[trigger] runs_in(table_of(system), process_name@),
{
    let system = snapshot();
    let all = list_processes(&system);
    proof {
        lemma_runs_in_listing(all@, table_of(system), process_name@);
    }
    is_running_among(all.as_slice(), process_name)
}

/// The message that refuses to terminate a protected process.
pub open spec fn protected_refusal() -> Seq<char> {
    "Refusing to terminate a protected system process"@
}

/// The number of processes of `list` that go by `process_name`, without regard
/// to case.
pub open spec fn named_count(list: Seq<RunningProcess>, process_name: Seq<char>) -> nat
    decreases list.len(),
{
    if list.len() == 0 {
        0
    } else if sort_key(list.last()) == lowercase(process_name) {
        named_count(list.drop_last(), process_name) + 1
    } else {
        named_count(list.drop_last(), process_name)
    }
}

/// A count as a `u32` holds it: no further than its greatest value.
pub open spec fn capped(count: nat) -> u32 {
    if count > u32::MAX {
        u32::MAX
    } else {
        count as u32
    }
}

/// Attempts to terminate every process of `processes` that goes by
/// `process_name`, without regard to case, and counts them, whether or not a
/// signal went out. The list has to be a listing of the table, and the name
/// must not be on the whitelist.
fn kill_among(system: &sysinfo::System, processes: &[RunningProcess], process_name: &str) -> (killed:
    u32)
    requires
        lists_table(processes@, table_of(*system)),
        !is_protected(process_name@),
    ensures
        killed == capped(named_count(processes@, process_name@)),
{
    let wanted = to_lowercase(process_name);
    let mut killed: u32 = 0;
    let mut i: usize = 0;
    while i < processes.len()
        invariant
            i <= processes@.len(),
            wanted@ == lowercase(process_name@),
            lists_table(processes@, table_of(*system)),
            !is_protected(process_name@),
            killed == capped(named_count(processes@.subrange(0, i as int), process_name@)),
        decreases processes@.len() - i,
    {
        proof {
            assert(processes@.subrange(0, i + 1).drop_last() =~= processes@.subrange(0, i as int));
            assert(processes@.subrange(0, i + 1).last() == processes@[i as int]);
        }
        let lower = to_lowercase(processes[i].name.as_str());
        if lower == wanted {
            let _ = terminate(system, &processes[i]);
            if killed < u32::MAX {
                killed += 1;
            }
        }
        i += 1;
    }
    assert(processes@.subrange(0, i as int) =~= processes@);
    killed
}

/// Terminates every running process that goes by `process_name`, without
/// regard to case, and tells how many there were in the table that was read,
/// counting no further than a `u32` holds. A name on the whitelist is
/// refused: then no table is read and nothing is terminated.
pub fn kill_process_by_name(process_name: &str) -> (result: Result<u32, BlockingError>)
    ensures
        match result {
            Ok(killed) => !is_protected(process_name@) && exists|
                system: sysinfo::System,
                list: Seq<RunningProcess>,
            |
                #![trigger lists_table(list, table_of(system))]
                lists_table(list, table_of(system)) && killed == capped(
                    named_count(list, process_name@),
                ),
            Err(error) => is_protected(process_name@) && error.message@ == protected_refusal(),
        },
{
    if is_whitelisted(process_name) {
        return Err(
            BlockingError {
                message: "Refusing to terminate a protected system process".to_owned(),
            },
        );
    }
    let system = snapshot();
    let all = list_processes(&system);
    let killed = kill_among(&system, all.as_slice(), process_name);
    assert(lists_table(all@, table_of(system)));
    Ok(killed)
}

/// Applications that are offered for blocking where the operating system
/// cannot list what is installed.
pub fn common_applications() -> (apps: Vec<InstalledApp>)
    ensures
        apps@.len() == 6,
        apps@[0].name@ == "Discord"@ && apps@[0].id@ == "Discord.exe"@,
        apps@[1].name@ == "Spotify"@ && apps@[1].id@ == "Spotify.exe"@,
        apps@[2].name@ == "Firefox"@ && apps@[2].id@ == "firefox.exe"@,
        apps@[3].name@ == "Chrome"@ && apps@[3].id@ == "chrome.exe"@,
        apps@[4].name@ == "Steam"@ && apps@[4].id@ == "steam.exe"@,
        apps@[5].name@ == "VS Code"@ && apps@[5].id@ == "Code.exe"@,
{
    let mut apps: Vec<InstalledApp> = Vec::new();
    apps.push(InstalledApp { name: "Discord".to_owned(), id: "Discord.exe".to_owned() });
    apps.push(InstalledApp { name: "Spotify".to_owned(), id: "Spotify.exe".to_owned() });
    apps.push(InstalledApp { name: "Firefox".to_owned(), id: "firefox.exe".to_owned() });
    apps.push(InstalledApp { name: "Chrome".to_owned(), id: "chrome.exe".to_owned() });
    apps.push(InstalledApp { name: "Steam".to_owned(), id: "steam.exe".to_owned() });
    apps.push(InstalledApp { name: "VS Code".to_owned(), id: "Code.exe".to_owned() });
    apps
}

} // verus!
