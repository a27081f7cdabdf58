//! The process registry: what the server knows of each spawned command,
//! the output it has produced, and what each poll and listing hands out.
//!
//! Starting commands, reading their pipes and waiting on timers is done by
//! the caller, which reports each event here (`register_process`,
//! `record_output`, `record_exit`) and asks here what to answer
//! (`check_poll`, `collect_poll`, `list_processes`).
use std::collections::HashMap;
use vstd::prelude::*;
use vstd::std_specs::iter::IteratorSpec;
use crate::text::{decimal_text, last_lines, last_n_lines, lemma_last_lines_shape, newline_count, signed_decimal_digits};

verus! {

broadcast use {vstd::std_specs::hash::group_hash_axioms, vstd::string::group_string_axioms};

/// Which output pipe of a process a piece of text came from.
pub enum OutputStream {
    Stdout,
    Stderr,
}

/// The state of one process, as contracts speak of it.
pub struct ProcessView {
    pub id: u32,
    pub command: Seq<char>,
    pub cwd: Option<Seq<char>>,
    /// Output collected on standard output (emptied once the finished
    /// process has been polled).
    pub stdout: Seq<char>,
    pub stderr: Seq<char>,
    /// How much of `stdout` earlier polls have handed out.
    pub stdout_position: nat,
    pub stderr_position: nat,
    /// A poll has seen the process finished.
    pub accessed: bool,
    pub finished: bool,
    pub exit_code: Option<i32>,
}

/// One spawned process.
pub struct ProcessInfo {
    pub id: u32,
    pub command: String,
    pub cwd: Option<String>,
    stdout_buffer: String,
    stderr_buffer: String,
    stdout_position: usize,
    stderr_position: usize,
    accessed: bool,
    finished: bool,
    exit_code: Option<i32>,
}

pub open spec fn optional_string_view(s: Option<String>) -> Option<Seq<char>> {
    match s {
        Some(t) => Some(t@),
        None => None,
    }
}

impl View for ProcessInfo {
    type V = ProcessView;

    closed spec fn view(&self) -> ProcessView {
        ProcessView {
            id: self.id,
            command: self.command@,
            cwd: optional_string_view(self.cwd),
            stdout: self.stdout_buffer@,
            stderr: self.stderr_buffer@,
            stdout_position: self.stdout_position as nat,
            stderr_position: self.stderr_position as nat,
            accessed: self.accessed,
            finished: self.finished,
            exit_code: self.exit_code,
        }
    }
}

/// What a poll hands out.
pub struct PollOutcome {
    /// Standard output produced since the previous poll.
    pub stdout: String,
    /// Standard error produced since the previous poll.
    pub stderr: String,
    pub finished: bool,
    /// The exit code, once the process has finished.
    pub exit_code: Option<i32>,
}

pub struct PollOutcomeView {
    pub stdout: Seq<char>,
    pub stderr: Seq<char>,
    pub finished: bool,
    pub exit_code: Option<i32>,
}

impl View for PollOutcome {
    type V = PollOutcomeView;

    open spec fn view(&self) -> PollOutcomeView {
        PollOutcomeView {
            stdout: self.stdout@,
            stderr: self.stderr@,
            finished: self.finished,
            exit_code: self.exit_code,
        }
    }
}

/// One line of the process listing.
pub struct ProcessListItem {
    pub id: u32,
    pub command: String,
    pub done: bool,
}

impl ProcessView {
    /// A process just started.
    pub open spec fn started(id: u32, command: Seq<char>, cwd: Option<Seq<char>>) -> ProcessView {
        ProcessView {
            id,
            command,
            cwd,
            stdout: Seq::empty(),
            stderr: Seq::empty(),
            stdout_position: 0,
            stderr_position: 0,
            accessed: false,
            finished: false,
            exit_code: None,
        }
    }

    /// `text` appended to the output of `stream`.
    pub open spec fn with_output(self, stream: OutputStream, text: Seq<char>) -> ProcessView {
        match stream {
            OutputStream::Stdout => ProcessView { stdout: self.stdout + text, ..self },
            OutputStream::Stderr => ProcessView { stderr: self.stderr + text, ..self },
        }
    }

    /// The process has exited with `code` (`None` when no code is known).
    pub open spec fn with_exit(self, code: Option<i32>) -> ProcessView {
        ProcessView { finished: true, exit_code: code, ..self }
    }

    /// A process still running is marked finished with exit code -1; a
    /// finished one is left alone.
    pub open spec fn forced_finished(self) -> ProcessView {
        if self.finished {
            self
        } else {
            ProcessView { finished: true, exit_code: Some(-1i32), ..self }
        }
    }

    /// Earlier polls have not handed out more than there is.
    pub open spec fn positions_in_bounds(self) -> bool {
        self.stdout_position <= self.stdout.len() && self.stderr_position <= self.stderr.len()
    }

    /// What a poll of this process hands out.
    pub open spec fn poll_outcome(self) -> PollOutcomeView {
        PollOutcomeView {
            stdout: self.stdout.subrange(self.stdout_position as int, self.stdout.len() as int),
            stderr: self.stderr.subrange(self.stderr_position as int, self.stderr.len() as int),
            finished: self.finished,
            exit_code: if self.finished { self.exit_code } else { None },
        }
    }

    /// The process after a poll: everything handed out, and, once it has
    /// finished, marked accessed with its output released (a later poll
    /// then finds nothing new).
    pub open spec fn after_poll(self) -> ProcessView {
        if self.finished {
            ProcessView {
                stdout_position: 0,
                stderr_position: 0,
                accessed: true,
                stdout: Seq::empty(),
                stderr: Seq::empty(),
                ..self
            }
        } else {
            ProcessView {
                stdout_position: self.stdout.len(),
                stderr_position: self.stderr.len(),
                ..self
            }
        }
    }
}

/// The registry, as contracts speak of it.
pub struct ManagerView {
    pub processes: Map<u32, ProcessView>,
    pub next_id: u32,
}

/// The identifier after `id`, wrapping around as an atomic counter does.
pub open spec fn next_identifier(id: u32) -> u32 {
    if id == u32::MAX {
        0
    } else {
        (id + 1) as u32
    }
}

/// The answer to a poll of an identifier that names no process.
pub open spec fn process_not_found_text(id: int) -> Seq<char> {
    "Process "@ + signed_decimal_digits(id) + " not found"@
}

pub open spec fn process_not_found_message(id: u32) -> Seq<char> {
    process_not_found_text(id as int)
}

pub open spec fn zero_wait_message() -> Seq<char> {
    "Wait time must be greater than 0 milliseconds"@
}

impl ManagerView {
    /// Each process is filed under its own identifier, and no poll has
    /// handed out more output than the process holds.
    pub open spec fn well_formed(self) -> bool {
        forall|id: u32| #[trigger] self.processes.contains_key(id) ==> self.processes[id].id == id
            && self.processes[id].positions_in_bounds()
    }

    /// The registry after starting `command` under the next identifier.
    pub open spec fn after_register(self, command: Seq<char>, cwd: Option<Seq<char>>) -> ManagerView {
        ManagerView {
            processes: self.processes.insert(self.next_id, ProcessView::started(self.next_id, command, cwd)),
            next_id: next_identifier(self.next_id),
        }
    }

    /// The registry with process `id` replaced by `p`, if there is such a
    /// process; unchanged otherwise.
    pub open spec fn update(self, id: u32, p: ProcessView) -> ManagerView {
        if self.processes.contains_key(id) {
            ManagerView { processes: self.processes.insert(id, p), ..self }
        } else {
            self
        }
    }

    pub open spec fn after_output(self, id: u32, stream: OutputStream, text: Seq<char>) -> ManagerView {
        self.update(id, self.processes[id].with_output(stream, text))
    }

    pub open spec fn after_exit(self, id: u32, code: Option<i32>) -> ManagerView {
        self.update(id, self.processes[id].with_exit(code))
    }

    pub open spec fn after_force_finish(self, id: u32) -> ManagerView {
        self.update(id, self.processes[id].forced_finished())
    }

    pub open spec fn after_poll(self, id: u32) -> ManagerView {
        self.update(id, self.processes[id].after_poll())
    }

    /// Whether a poll of `id` waiting `wait_ms` milliseconds is accepted,
    /// and the error otherwise.
    pub open spec fn poll_verdict(self, id: u32, wait_ms: u64) -> Result<(), Seq<char>> {
        if !self.processes.contains_key(id) {
            Err(process_not_found_message(id))
        } else if wait_ms == 0 {
            Err(zero_wait_message())
        } else {
            Ok(())
        }
    }

    /// The registry once the processes whose results were handed out are
    /// dropped.
    pub open spec fn after_list(self) -> ManagerView {
        ManagerView {
            processes: Map::new(
                |id: u32| self.processes.contains_key(id) && !self.processes[id].accessed,
                |id: u32| self.processes[id],
            ),
            ..self
        }
    }
}

/// Whether `items` lists exactly the processes of `m`, each once.
pub open spec fn lists_exactly(items: Seq<ProcessListItem>, m: Map<u32, ProcessView>) -> bool {
    &&& forall|j: int|
        0 <= j < items.len() ==> {
            &&& m.contains_key(#[trigger] items[j].id)
            &&& items[j].command@ == m[items[j].id].command
            &&& items[j].done == m[items[j].id].finished
        }
    &&& forall|i: int, j: int| 0 <= i < j < items.len() ==> #[trigger] items[i].id != #[trigger] items[j].id
    &&& forall|id: u32| #[trigger] m.contains_key(id) ==> exists|j: int| 0 <= j < items.len() && items[j].id == id
}

/// All processes spawned by one server.
pub struct ProcessManager {
    processes: HashMap<u32, ProcessInfo>,
    next_id: u32,
}

impl View for ProcessManager {
    type V = ManagerView;

    closed spec fn view(&self) -> ManagerView {
        ManagerView {
            processes: self.processes@.map_values(|p: ProcessInfo| p@),
            next_id: self.next_id,
        }
    }
}

fn collect_keys<V>(m: &HashMap<u32, V>) -> (keys: Vec<u32>)
    ensures
        keys@.to_set() == m@.dom(),
        keys@.no_duplicates(),
{
    let ghost all = vstd::std_specs::hash::spec_keys_iter(m).remaining();
    let mut keys: Vec<u32> = Vec::new();
    for k in it: m.keys()
        invariant
            it.seq() == all,
            keys.len() == it.index(),
            keys@ == all.take(it.index() as int).map_values(|r: &u32| *r),
    {
        keys.push(*k);
        assert(all.take(it.index() + 1).map_values(|r: &u32| *r) =~= keys@);
    }
    assert(all.take(keys.len() as int) =~= all);
    assert(keys@ =~= all.unref());
    keys
}

impl ProcessManager {
    /// An empty registry whose first identifier is 1.
    pub fn new() -> (r: Self)
        ensures
            r@.processes == Map::<u32, ProcessView>::empty(),
            r@.next_id == 1,
            r@.well_formed(),
    {
        let r = ProcessManager { processes: HashMap::new(), next_id: 1 };
        assert(r@.processes =~= Map::<u32, ProcessView>::empty());
        r
    }

    /// Files a process that has just been started and returns its
    /// identifier.
    pub fn register_process(&mut self, command: &str, cwd: Option<String>) -> (id: u32)
        requires
            old(self)@.well_formed(),
        ensures
            id == old(self)@.next_id,
            final(self)@ == old(self)@.after_register(command@, optional_string_view(cwd)),
            final(self)@.well_formed(),
    {
        let id = self.next_id;
        let info = ProcessInfo {
            id,
            command: command.to_string(),
            cwd,
            stdout_buffer: String::new(),
            stderr_buffer: String::new(),
            stdout_position: 0,
            stderr_position: 0,
            accessed: false,
            finished: false,
            exit_code: None,
        };
        self.processes.insert(id, info);
        self.next_id = self.next_id.wrapping_add(1);
        assert(self@.processes =~= old(self)@.after_register(command@, optional_string_view(cwd)).processes);
        id
    }

    /// Whether the process `id` is known and has finished.
    pub fn is_finished(&self, id: u32) -> (r: bool)
        ensures
            r == (self@.processes.contains_key(id) && self@.processes[id].finished),
    {
        match self.processes.get(&id) {
            Some(p) => p.finished,
            None => false,
        }
    }

    /// Appends `text`, read from `stream` of process `id`, to its output.
    pub fn record_output(&mut self, id: u32, stream: OutputStream, text: &str)
        requires
            old(self)@.well_formed(),
        ensures
            final(self)@ == old(self)@.after_output(id, stream, text@),
            final(self)@.well_formed(),
    {
        match self.processes.remove(&id) {
            Some(mut p) => {
                match stream {
                    OutputStream::Stdout => p.stdout_buffer.append(text),
                    OutputStream::Stderr => p.stderr_buffer.append(text),
                }
                self.processes.insert(id, p);
                assert(self@.processes =~= old(self)@.after_output(id, stream, text@).processes);
            },
            None => {
                assert(self@.processes =~= old(self)@.processes);
            },
        }
    }

    /// Notes that process `id` has exited with `code`.
    pub fn record_exit(&mut self, id: u32, code: Option<i32>)
        requires
            old(self)@.well_formed(),
        ensures
            final(self)@ == old(self)@.after_exit(id, code),
            final(self)@.well_formed(),
    {
        match self.processes.remove(&id) {
            Some(mut p) => {
                p.exit_code = code;
                p.finished = true;
                self.processes.insert(id, p);
                assert(self@.processes =~= old(self)@.after_exit(id, code).processes);
            },
            None => {
                assert(self@.processes =~= old(self)@.processes);
            },
        }
    }

    /// Marks a process that is still running as finished with exit code -1,
    /// as a terminating poll does once its grace period is over.
    pub fn force_finish(&mut self, id: u32)
        requires
            old(self)@.well_formed(),
        ensures
            final(self)@ == old(self)@.after_force_finish(id),
            final(self)@.well_formed(),
    {
        match self.processes.remove(&id) {
            Some(mut p) => {
                if !p.finished {
                    p.finished = true;
                    p.exit_code = Some(-1);
                }
                self.processes.insert(id, p);
                assert(self@.processes =~= old(self)@.after_force_finish(id).processes);
            },
            None => {
                assert(self@.processes =~= old(self)@.processes);
            },
        }
    }

    /// Checks a poll request before any waiting: the process must be known
    /// and the wait must be positive.
    pub fn check_poll(&self, process_id: u32, wait_ms: u64) -> (r: Result<(), String>)
        ensures
            match r {
                Ok(()) => self@.poll_verdict(process_id, wait_ms) == Ok::<(), Seq<char>>(()),
                Err(e) => self@.poll_verdict(process_id, wait_ms) == Err::<(), Seq<char>>(e@),
            },
    {
        if !self.processes.contains_key(&process_id) {
            let mut msg = "Process ".to_string();
            let digits = decimal_text(process_id as u64);
            msg.append(digits.as_str());
            msg.append(" not found");
            return Err(msg);
        }
        if wait_ms == 0 {
            return Err("Wait time must be greater than 0 milliseconds".to_string());
        }
        Ok(())
    }

    /// Hands out the output that process `id` produced since its previous
    /// poll, with its status; once the process has finished, marks it
    /// accessed and releases its output.
    pub fn collect_poll(&mut self, id: u32) -> (r: PollOutcome)
        requires
            old(self)@.well_formed(),
            old(self)@.processes.contains_key(id),
        ensures
            r@ == old(self)@.processes[id].poll_outcome(),
            final(self)@ == old(self)@.after_poll(id),
            final(self)@.well_formed(),
    {
        let mut p = self.processes.remove(&id).unwrap();
        let out_len = p.stdout_buffer.as_str().unicode_len();
        let err_len = p.stderr_buffer.as_str().unicode_len();
        let new_stdout = p.stdout_buffer.as_str().substring_char(p.stdout_position, out_len).to_string();
        let new_stderr = p.stderr_buffer.as_str().substring_char(p.stderr_position, err_len).to_string();
        p.stdout_position = out_len;
        p.stderr_position = err_len;
        let finished = p.finished;
        let exit_code = if finished { p.exit_code } else { None };
        if finished {
            p.accessed = true;
            p.stdout_buffer = String::new();
            p.stderr_buffer = String::new();
            p.stdout_position = 0;
            p.stderr_position = 0;
        }
        self.processes.insert(id, p);
        assert(self@.processes =~= old(self)@.after_poll(id).processes);
        PollOutcome { stdout: new_stdout, stderr: new_stderr, finished, exit_code }
    }

    /// Drops the processes whose results a poll has handed out, then lists
    /// the rest.
    pub fn list_processes(&mut self) -> (items: Vec<ProcessListItem>)
        requires
            old(self)@.well_formed(),
        ensures
            final(self)@ == old(self)@.after_list(),
            final(self)@.well_formed(),
            lists_exactly(items@, final(self)@.processes),
    {
        let ghost start = self@.processes;
        let keys = collect_keys(&self.processes);
        let mut items: Vec<ProcessListItem> = Vec::new();
        let mut i: usize = 0;
        while i < keys.len()
            invariant
                0 <= i <= keys.len(),
                keys@.to_set() == start.dom(),
                keys@.no_duplicates(),
                self.next_id == old(self)@.next_id,
                start == old(self)@.processes,
                old(self)@.well_formed(),
                forall|id: u32| #[trigger] self@.processes.contains_key(id) ==> start.contains_key(id) && self@.processes[id] == start[id],
                forall|id: u32| #[trigger] start.contains_key(id) && !start[id].accessed ==> self@.processes.contains_key(id),
                forall|t: int| 0 <= t < i && #[trigger] start[keys@[t]].accessed ==> !self@.processes.contains_key(keys@[t]),
                forall|j: int|
                    0 <= j < items.len() ==> {
                        &&& start.contains_key(#[trigger] items@[j].id)
                        &&& !start[items@[j].id].accessed
                        &&& items@[j].command@ == start[items@[j].id].command
                        &&& items@[j].done == start[items@[j].id].finished
                        &&& exists|t: int| 0 <= t < i && keys@[t] == items@[j].id
                    },
                forall|a: int, b: int| 0 <= a < b < items.len() ==> #[trigger] items@[a].id != #[trigger] items@[b].id,
                forall|t: int|
                    0 <= t < i && !#[trigger] start[keys@[t]].accessed ==> exists|j: int| 0 <= j < items.len() && items@[j].id == keys@[t],
            decreases keys.len() - i,
        {
            let id = keys[i];
            assert(keys@.to_set().contains(id));
            let accessed = match self.processes.get(&id) {
                Some(p) => p.accessed,
                None => true,
            };
            let ghost before = self@.processes;
            let ghost old_items = items@;
            if accessed {
                self.processes.remove(&id);
                assert(self@.processes =~= before.remove(id));
            } else {
                let p = self.processes.get(&id).unwrap();
                assert(self.processes@[id] == *p);
                assert(self@.processes[id] == p@);
                assert(self@.processes.contains_key(id));
                assert(self@.processes[id] == start[id]);
                let command = p.command.clone();
                assert(command == p.command);
                assert(p@.command == p.command@);
                let item = ProcessListItem { id, command, done: p.finished };
                proof {
                    assert forall|j: int| 0 <= j < items.len() implies items@[j].id != id by {
                        let t = choose|t: int| 0 <= t < i && keys@[t] == items@[j].id;
                        assert(keys@[t] != keys@[i as int]);
                    }
                }
                assert(item.command@ == start[id].command);
                assert(keys@[i as int] == id);
                items.push(item);
                assert(items@[items.len() - 1] == item);
            }
            proof {
                assert forall|t: int|
                    0 <= t < i + 1 && !#[trigger] start[keys@[t]].accessed implies exists|j: int| 0 <= j < items.len() && items@[j].id == keys@[t] by {
                    if t < i {
                        let j = choose|j: int| 0 <= j < old_items.len() && old_items[j].id == keys@[t];
                        assert(items@[j] == old_items[j]);
                    } else {
                        assert(items@[items.len() - 1].id == keys@[t]);
                    }
                }
            }
            i = i + 1;
        }
        proof {
            assert forall|id: u32| #[trigger] start.contains_key(id) && start[id].accessed implies !self@.processes.contains_key(id) by {
                assert(keys@.to_set().contains(id));
                let t = choose|t: int| 0 <= t < keys.len() && keys@[t] == id;
            }
            assert(self@.processes =~= old(self)@.after_list().processes);
        }
        items
    }

    /// The progress report for process `id`: its command with the last
    /// five lines of its standard output and standard error.
    pub fn progress_report(&self, id: u32) -> (r: Option<String>)
        ensures
            match r {
                Some(m) => self@.processes.contains_key(id) && m@ == progress_text(
                    self@.processes[id].command,
                    self@.processes[id].stdout,
                    self@.processes[id].stderr,
                ),
                None => !self@.processes.contains_key(id),
            },
    {
        match self.processes.get(&id) {
            Some(p) => Some(progress_message(p.command.as_str(), p.stdout_buffer.as_str(), p.stderr_buffer.as_str())),
            None => None,
        }
    }
}

impl Default for ProcessManager {
    /// An empty registry, as `ProcessManager::new` makes it.
    fn default() -> (r: Self)
        ensures
            r@.processes == Map::<u32, ProcessView>::empty(),
            r@.next_id == 1,
            r@.well_formed(),
    {
        Self::new()
    }
}

/// Something that happens to a process: output arrives on a stream, it
/// exits, a terminating poll marks it finished, or it is polled.
pub enum ProcessEvent {
    Output(OutputStream, Seq<char>),
    Exit(Option<i32>),
    Forced,
    Poll,
}

impl ProcessView {
    /// The process after `event`.
    pub open spec fn after_event(self, event: ProcessEvent) -> ProcessView {
        match event {
            ProcessEvent::Output(stream, text) => self.with_output(stream, text),
            ProcessEvent::Exit(code) => self.with_exit(code),
            ProcessEvent::Forced => self.forced_finished(),
            ProcessEvent::Poll => self.after_poll(),
        }
    }

    /// The process after `events`, in order.
    pub open spec fn after_events(self, events: Seq<ProcessEvent>) -> ProcessView
        decreases events.len(),
    {
        if events.len() == 0 {
            self
        } else {
            self.after_events(events.drop_last()).after_event(events.last())
        }
    }

    /// The output of `stream` that no poll has handed out yet.
    pub open spec fn pending(self, stream: OutputStream) -> Seq<char> {
        match stream {
            OutputStream::Stdout => self.stdout.subrange(self.stdout_position as int, self.stdout.len() as int),
            OutputStream::Stderr => self.stderr.subrange(self.stderr_position as int, self.stderr.len() as int),
        }
    }

    /// Everything the polls among `events` hand out on `stream`, in order.
    pub open spec fn delivered(self, events: Seq<ProcessEvent>, stream: OutputStream) -> Seq<char>
        decreases events.len(),
    {
        if events.len() == 0 {
            Seq::empty()
        } else {
            self.delivered(events.drop_last(), stream) + if events.last() is Poll {
                self.after_events(events.drop_last()).pending(stream)
            } else {
                Seq::empty()
            }
        }
    }
}

/// All output that arrives on `stream` among `events`, in order.
pub open spec fn recorded(events: Seq<ProcessEvent>, stream: OutputStream) -> Seq<char>
    decreases events.len(),
{
    if events.len() == 0 {
        Seq::empty()
    } else {
        recorded(events.drop_last(), stream) + match events.last() {
            ProcessEvent::Output(s, text) => if s == stream { text } else { Seq::empty() },
            _ => Seq::empty(),
        }
    }
}

/// What a poll hands out on `stream` is what is pending there.
pub proof fn lemma_poll_hands_out_pending(p: ProcessView)
    ensures
        p.poll_outcome().stdout == p.pending(OutputStream::Stdout),
        p.poll_outcome().stderr == p.pending(OutputStream::Stderr),
        p.after_poll().pending(OutputStream::Stdout) == Seq::<char>::empty(),
        p.after_poll().pending(OutputStream::Stderr) == Seq::<char>::empty(),
{
    assert(p.after_poll().pending(OutputStream::Stdout) =~= Seq::<char>::empty());
    assert(p.after_poll().pending(OutputStream::Stderr) =~= Seq::<char>::empty());
}

/// Output is handed out exactly once and in order: whatever happens to a
/// process, what its polls have handed out on a stream, followed by what
/// is still pending there, is what was pending at the start followed by
/// all output that arrived. So for a process just started, every poll
/// series ending in a poll hands out exactly the whole output, with
/// nothing lost and nothing repeated.
pub proof fn lemma_output_delivered_exactly_once(p: ProcessView, events: Seq<ProcessEvent>, stream: OutputStream)
    requires
        p.positions_in_bounds(),
    ensures
        p.after_events(events).positions_in_bounds(),
        p.delivered(events, stream) + p.after_events(events).pending(stream) == p.pending(stream) + recorded(events, stream),
        events.len() > 0 && events.last() is Poll ==> p.after_events(events).pending(stream) == Seq::<char>::empty(),
        events.len() > 0 && events.last() is Poll && p.pending(stream) == Seq::<char>::empty() ==> p.delivered(events, stream) == recorded(events, stream),
    decreases events.len(),
{
    if events.len() == 0 {
        assert(p.delivered(events, stream) =~= Seq::<char>::empty());
        assert(recorded(events, stream) =~= Seq::<char>::empty());
        assert(p.pending(stream) + Seq::<char>::empty() =~= p.pending(stream));
        assert(Seq::<char>::empty() + p.pending(stream) =~= p.pending(stream));
    } else {
        let prefix = events.drop_last();
        let e = events.last();
        lemma_output_delivered_exactly_once(p, prefix, stream);
        let q = p.after_events(prefix);
        let r = q.after_event(e);
        assert(p.after_events(events) == r);
        let d = p.delivered(prefix, stream);
        let rec = recorded(prefix, stream);
        assert(d + q.pending(stream) == p.pending(stream) + rec);
        match e {
            ProcessEvent::Output(s, text) => {
                assert(p.delivered(events, stream) =~= d);
                if s == stream {
                    assert(r.pending(stream) =~= q.pending(stream) + text);
                    assert(recorded(events, stream) =~= rec + text);
                    assert(d + (q.pending(stream) + text) =~= (d + q.pending(stream)) + text);
                    assert((p.pending(stream) + rec) + text =~= p.pending(stream) + (rec + text));
                } else {
                    assert(r.pending(stream) =~= q.pending(stream));
                    assert(recorded(events, stream) =~= rec);
                }
            },
            ProcessEvent::Poll => {
                lemma_poll_hands_out_pending(q);
                assert(r.pending(stream) =~= Seq::<char>::empty());
                assert(recorded(events, stream) =~= rec);
                assert(p.delivered(events, stream) =~= d + q.pending(stream));
                assert((d + q.pending(stream)) + Seq::<char>::empty() =~= d + q.pending(stream));
            },
            _ => {
                assert(r.pending(stream) =~= q.pending(stream));
                assert(p.delivered(events, stream) =~= d);
                assert(recorded(events, stream) =~= rec);
            },
        }
        if e is Poll && p.pending(stream) == Seq::<char>::empty() {
            assert(Seq::<char>::empty() + recorded(events, stream) =~= recorded(events, stream));
            assert(p.delivered(events, stream) + Seq::<char>::empty() =~= p.delivered(events, stream));
        }
    }
}

/// A poll reports no exit code while the process runs, and once it has
/// exited the code it exited with, also when output still arrives after
/// the exit.
pub proof fn lemma_exit_code_reported(p: ProcessView, code: Option<i32>, stream: OutputStream, text: Seq<char>)
    ensures
        !p.finished ==> p.poll_outcome().exit_code is None && !p.poll_outcome().finished,
        p.with_exit(code).poll_outcome().finished,
        p.with_exit(code).poll_outcome().exit_code == code,
        p.with_exit(code).with_output(stream, text).poll_outcome().exit_code == code,
{
}

/// Every operation of the registry keeps it well formed: each process
/// filed under its own identifier, and no poll ahead of the output.
pub proof fn lemma_operations_keep_registry_sound(
    m: ManagerView,
    id: u32,
    stream: OutputStream,
    text: Seq<char>,
    code: Option<i32>,
    command: Seq<char>,
    cwd: Option<Seq<char>>,
)
    requires
        m.well_formed(),
    ensures
        m.after_register(command, cwd).well_formed(),
        m.after_output(id, stream, text).well_formed(),
        m.after_exit(id, code).well_formed(),
        m.after_force_finish(id).well_formed(),
        m.after_poll(id).well_formed(),
        m.after_list().well_formed(),
{
}

impl ManagerView {
    /// Every identifier in use lies between 1 and the next one to be
    /// handed out: the counter has not wrapped around.
    pub open spec fn identifiers_fresh(self) -> bool {
        forall|id: u32| #[trigger] self.processes.contains_key(id) ==> 1 <= id < self.next_id
    }
}

/// Identifiers are handed out afresh: while the counter has not wrapped,
/// a new process gets an identifier no process holds, the identifiers grow
/// by one, and no operation makes an identifier in use collide with the
/// next one. A new registry starts at 1 with no process.
pub proof fn lemma_identifiers_stay_fresh(
    m: ManagerView,
    id: u32,
    stream: OutputStream,
    text: Seq<char>,
    code: Option<i32>,
    command: Seq<char>,
    cwd: Option<Seq<char>>,
)
    requires
        m.identifiers_fresh(),
        1 <= m.next_id,
    ensures
        !m.processes.contains_key(m.next_id),
        m.next_id < u32::MAX ==> m.after_register(command, cwd).next_id == m.next_id + 1,
        m.next_id < u32::MAX ==> m.after_register(command, cwd).identifiers_fresh(),
        m.after_output(id, stream, text).identifiers_fresh(),
        m.after_exit(id, code).identifiers_fresh(),
        m.after_force_finish(id).identifiers_fresh(),
        m.after_poll(id).identifiers_fresh(),
        m.after_list().identifiers_fresh(),
        (ManagerView { processes: Map::empty(), next_id: 1 }).identifiers_fresh(),
{
}

/// Once a poll has seen a process finished, the next listing drops it;
/// a process not yet seen finished stays listed, and listing again
/// changes nothing.
pub proof fn lemma_listing_drops_exactly_collected(m: ManagerView, id: u32)
    requires
        m.well_formed(),
        m.processes.contains_key(id),
    ensures
        m.processes[id].finished ==> !m.after_poll(id).after_list().processes.contains_key(id),
        !m.processes[id].accessed ==> m.after_list().processes.contains_key(id),
        m.after_list().after_list() == m.after_list(),
{
    assert(m.after_list().after_list().processes =~= m.after_list().processes);
}

/// A terminating poll always reports the process finished: once the grace
/// period is over, the forced finish leaves it finished, keeping the exit
/// code it had if it had already exited, and -1 otherwise.
pub proof fn lemma_forced_finish_finishes(m: ManagerView, id: u32)
    requires
        m.processes.contains_key(id),
    ensures
        m.after_force_finish(id).processes[id].finished,
        m.after_force_finish(id).processes[id].poll_outcome().finished,
        m.processes[id].finished ==> m.after_force_finish(id).processes[id].exit_code == m.processes[id].exit_code,
        !m.processes[id].finished ==> m.after_force_finish(id).processes[id].exit_code == Some(-1i32),
{
}

/// What a poll does between its checks and its collection.
#[derive(PartialEq, Eq, Structural, Debug)]
pub enum PollStep {
    /// The process has finished: collect at once.
    Collect,
    /// Wait for the process to exit, at most the poll's wait.
    WaitForExit,
    /// Send the process SIGTERM, wait for its exit at most
    /// `TERMINATE_GRACE_MS`, then `force_finish` it.
    Terminate,
}

/// How long a terminating poll waits for the process to exit, in
/// milliseconds, before marking it finished.
pub const TERMINATE_GRACE_MS: u64 = 5000;

/// The step a poll of `p` takes.
pub open spec fn poll_step_for(p: ProcessView, terminate: bool) -> PollStep {
    if p.finished {
        PollStep::Collect
    } else if terminate {
        PollStep::Terminate
    } else {
        PollStep::WaitForExit
    }
}

impl ProcessManager {
    /// The step a poll of process `id` takes: collect a finished process
    /// at once; otherwise signal and wait out the grace period when asked
    /// to terminate, or wait for the exit.
    pub fn poll_step(&self, id: u32, terminate: bool) -> (r: PollStep)
        requires
            self@.processes.contains_key(id),
        ensures
            r == poll_step_for(self@.processes[id], terminate),
    {
        if self.is_finished(id) {
            PollStep::Collect
        } else if terminate {
            PollStep::Terminate
        } else {
            PollStep::WaitForExit
        }
    }
}

/// How many trailing lines of each stream a progress report shows.
pub const PROGRESS_TAIL_LINES: usize = 5;

/// The text of a progress report.
pub open spec fn progress_text(command: Seq<char>, stdout: Seq<char>, stderr: Seq<char>) -> Seq<char> {
    "# `$ "@ + command + "` \n\n## stdout\n\n```\n"@ + last_lines(stdout, PROGRESS_TAIL_LINES as nat)
        + "\n```\n\n## stderr\n\n```\n"@ + last_lines(stderr, PROGRESS_TAIL_LINES as nat) + "\n```\n"@
}

/// Formats a progress report: the command, then the last five lines of
/// standard output and of standard error, each in a fenced block.
pub fn progress_message(command: &str, stdout: &str, stderr: &str) -> (r: String)
    ensures
        r@ == progress_text(command@, stdout@, stderr@),
{
    let mut msg = "# `$ ".to_string();
    msg.append(command);
    msg.append("` \n\n## stdout\n\n```\n");
    msg.append(last_n_lines(stdout, PROGRESS_TAIL_LINES));
    msg.append("\n```\n\n## stderr\n\n```\n");
    msg.append(last_n_lines(stderr, PROGRESS_TAIL_LINES));
    msg.append("\n```\n");
    msg
}

/// A poll's step depends on nothing but whether the process has finished
/// and whether the poll terminates: a finished process is collected at
/// once; a running one is signalled and given its grace period by a
/// terminating poll, and waited for by any other, whatever output it holds.
/// After the grace period the terminated process is reported finished,
/// with -1 unless it had exited by then.
pub proof fn lemma_poll_step_follows_status(p: ProcessView, q: ProcessView, terminate: bool)
    ensures
        p.finished ==> poll_step_for(p, terminate) == PollStep::Collect,
        !p.finished && terminate ==> poll_step_for(p, terminate) == PollStep::Terminate,
        !p.finished && !terminate ==> poll_step_for(p, terminate) == PollStep::WaitForExit,
        p.finished == q.finished ==> poll_step_for(p, terminate) == poll_step_for(q, terminate),
        !p.finished && terminate ==> p.forced_finished().poll_outcome().finished
            && p.forced_finished().poll_outcome().exit_code == Some(-1i32),
        !p.finished && terminate ==> p.with_exit(None).forced_finished().poll_outcome().exit_code == None::<i32>,
{
}

/// A progress report shows the command, then the last five lines of
/// standard output and of standard error, each in a fenced block: a
/// stream with at most four line feeds is shown whole; a longer one only
/// from just after its fifth line feed from the end, so that the part
/// shown holds exactly four line feeds and ends the stream.
pub proof fn lemma_progress_shows_last_five_lines(command: Seq<char>, stdout: Seq<char>, stderr: Seq<char>)
    ensures
        progress_text(command, stdout, stderr) == "# `$ "@ + command + "` \n\n## stdout\n\n```\n"@ + last_lines(stdout, 5)
            + "\n```\n\n## stderr\n\n```\n"@ + last_lines(stderr, 5) + "\n```\n"@,
        newline_count(stdout) < 5 ==> last_lines(stdout, 5) == stdout,
        newline_count(stderr) < 5 ==> last_lines(stderr, 5) == stderr,
        last_lines(stdout, 5) == stdout.subrange(stdout.len() - last_lines(stdout, 5).len(), stdout.len() as int),
        last_lines(stderr, 5) == stderr.subrange(stderr.len() - last_lines(stderr, 5).len(), stderr.len() as int),
        newline_count(stdout) >= 5 ==> newline_count(last_lines(stdout, 5)) == 4 && stdout[stdout.len()
            - last_lines(stdout, 5).len() - 1] == '\n',
        newline_count(stderr) >= 5 ==> newline_count(last_lines(stderr, 5)) == 4 && stderr[stderr.len()
            - last_lines(stderr, 5).len() - 1] == '\n',
{
    lemma_last_lines_shape(stdout, 5);
    lemma_last_lines_shape(stderr, 5);
}

} // verus!
