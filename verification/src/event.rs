//! Events: what the guard writes down about a run.
use crate::meminfo::MemInfo;
use crate::text;
use vstd::prelude::*;
use vstd::string::*;

verus! {

/// Something that happened in a run.
#[derive(Debug, PartialEq, Eq)]
pub struct Event {
    /// Milliseconds since the start of 1970.
    pub unix_ms: u128,
    pub event: String,
    pub label: String,
    pub pid: Option<u32>,
    pub command: Vec<String>,
    pub detail: Option<String>,
    pub mem_available_bytes: Option<u64>,
    pub swap_free_bytes: Option<u64>,
    pub exit_code: Option<i32>,
}

/// What an [`Event`] says.
#[verifier::ext_equal]
pub struct EventView {
    pub unix_ms: u128,
    pub event: Seq<char>,
    pub label: Seq<char>,
    pub pid: Option<u32>,
    pub command: Seq<Seq<char>>,
    pub detail: Option<Seq<char>>,
    pub mem_available_bytes: Option<u64>,
    pub swap_free_bytes: Option<u64>,
    pub exit_code: Option<i32>,
}

impl View for Event {
    type V = EventView;

    open spec fn view(&self) -> EventView {
        EventView {
            unix_ms: self.unix_ms,
            event: self.event@,
            label: self.label@,
            pid: self.pid,
            command: text::contents(self.command@),
            detail: text::content_of(self.detail),
            mem_available_bytes: self.mem_available_bytes,
            swap_free_bytes: self.swap_free_bytes,
            exit_code: self.exit_code,
        }
    }
}

impl EventView {
    /// An event of the given name, with nothing more said of it.
    pub open spec fn new(unix_ms: u128, event: Seq<char>, label: Seq<char>) -> EventView {
        EventView {
            unix_ms,
            event,
            label,
            pid: None,
            command: Seq::empty(),
            detail: None,
            mem_available_bytes: None,
            swap_free_bytes: None,
            exit_code: None,
        }
    }

    /// The event, with the process that it is about.
    pub open spec fn with_pid(self, pid: u32) -> EventView {
        EventView { pid: Some(pid), ..self }
    }

    /// The event, with the command that was to run.
    pub open spec fn with_command(self, command: Seq<Seq<char>>) -> EventView {
        EventView { command, ..self }
    }

    /// The event, with a remark.
    pub open spec fn with_detail(self, detail: Seq<char>) -> EventView {
        EventView { detail: Some(detail), ..self }
    }

    /// The event, with the memory that was left.
    pub open spec fn with_mem(self, mem: MemInfo) -> EventView {
        EventView {
            mem_available_bytes: Some(mem.mem_available_bytes),
            swap_free_bytes: Some(mem.swap_free_bytes),
            ..self
        }
    }

    /// The event, with an exit code.
    pub open spec fn with_exit(self, exit_code: i32) -> EventView {
        EventView { exit_code: Some(exit_code), ..self }
    }
}

impl Event {
    /// An event of the given name, with nothing more said of it.
    pub fn new(unix_ms: u128, event: &str, label: &str) -> (r: Self)
        ensures
            r@ == EventView::new(unix_ms, event@, label@),
    {
        let r = Event {
            unix_ms,
            event: event.to_string(),
            label: label.to_string(),
            pid: None,
            command: Vec::new(),
            detail: None,
            mem_available_bytes: None,
            swap_free_bytes: None,
            exit_code: None,
        };
        assert(text::contents(r.command@) =~= Seq::<Seq<char>>::empty());
        r
    }

    /// The event, with the process that it is about.
    pub fn with_pid(self, pid: u32) -> (r: Self)
        ensures
            r@ == self@.with_pid(pid),
    {
        Event { pid: Some(pid), ..self }
    }

    /// The event, with the command that was to run.
    pub fn with_command(self, command: Vec<String>) -> (r: Self)
        ensures
            r@ == self@.with_command(text::contents(command@)),
    {
        Event { command, ..self }
    }

    /// The event, with a remark.
    pub fn with_detail(self, detail: String) -> (r: Self)
        ensures
            r@ == self@.with_detail(detail@),
    {
        Event { detail: Some(detail), ..self }
    }

    /// The event, with the memory that was left.
    pub fn with_mem(self, mem: MemInfo) -> (r: Self)
        ensures
            r@ == self@.with_mem(mem),
    {
        Event {
            mem_available_bytes: Some(mem.mem_available_bytes),
            swap_free_bytes: Some(mem.swap_free_bytes),
            ..self
        }
    }

    /// The event, with an exit code.
    pub fn with_exit(self, exit_code: i32) -> (r: Self)
        ensures
            r@ == self@.with_exit(exit_code),
    {
        Event { exit_code: Some(exit_code), ..self }
    }
}

} // verus!
