//! The task record, its priority levels and the input records for creation and update.

use vstd::prelude::*;
use crate::text::{lower_of, lowercase, trim_spec, trim_str};
use vstd::string::StringExecFns;

verus! {

/// Task priority levels, ordered `Low < Medium < High < Critical`.
#[derive(Clone, Copy, Debug, PartialEq, Eq, Structural, PartialOrd, Ord, Hash)]
pub enum Priority {
    Low,
    Medium,
    High,
    Critical,
}

/// The level that a lower-case name stands for.
pub open spec fn priority_named(t: Seq<char>) -> Option<Priority> {
    if t == "low"@ {
        Some(Priority::Low)
    } else if t == "medium"@ {
        Some(Priority::Medium)
    } else if t == "high"@ {
        Some(Priority::High)
    } else if t == "critical"@ {
        Some(Priority::Critical)
    } else {
        None
    }
}

/// The message that rejects `s` as a priority.
pub open spec fn invalid_priority_text(s: Seq<char>) -> Seq<char> {
    "invalid priority: '"@ + s + "'. Valid values: low, medium, high, critical"@
}

/// The characters of `a` followed by those of `b`.
pub fn concat(a: &str, b: &str) -> (r: String)
    ensures
        r@ == a@ + b@,
{
    a.to_owned().concat(b)
}

/// Whether two strings hold the same characters.
pub fn same_text(a: &str, b: &str) -> (r: bool)
    ensures
        r == (a@ == b@),
{
    let x = a.to_owned();
    let y = b.to_owned();
    x == y
}

impl Priority {
    /// Rank in the total order: 1 for `Low` up to 4 for `Critical`.
    pub open spec fn rank(self) -> int {
        match self {
            Priority::Low => 1,
            Priority::Medium => 2,
            Priority::High => 3,
            Priority::Critical => 4,
        }
    }

    /// The lower-case name of the level.
    pub open spec fn name(self) -> Seq<char> {
        match self {
            Priority::Low => "low"@,
            Priority::Medium => "medium"@,
            Priority::High => "high"@,
            Priority::Critical => "critical"@,
        }
    }

    /// Numeric value for sorting (higher number = higher priority).
    pub fn sort_value(&self) -> (r: u8)
        ensures
            r as int == self.rank(),
    {
        match self {
            Priority::Low => 1,
            Priority::Medium => 2,
            Priority::High => 3,
            Priority::Critical => 4,
        }
    }

    /// The lower-case name of the level.
    pub fn as_str(&self) -> (r: &'static str)
        ensures
            r@ == self.name(),
    {
        match self {
            Priority::Low => "low",
            Priority::Medium => "medium",
            Priority::High => "high",
            Priority::Critical => "critical",
        }
    }

    /// The level whose name is exactly `t`, if any.
    pub fn from_normalized(t: &str) -> (r: Option<Priority>)
        ensures
            r == priority_named(t@),
    {
        proof {
            reveal_strlit("low");
            reveal_strlit("medium");
            reveal_strlit("high");
            reveal_strlit("critical");
        }
        if same_text(t, "low") {
            Some(Priority::Low)
        } else if same_text(t, "medium") {
            Some(Priority::Medium)
        } else if same_text(t, "high") {
            Some(Priority::High)
        } else if same_text(t, "critical") {
            Some(Priority::Critical)
        } else {
            None
        }
    }

    /// Parse a priority from a string, ignoring case and surrounding whitespace.
    pub fn parse(s: &str) -> (r: Result<Priority, String>)
        ensures
            r matches Ok(p) ==> priority_named(lower_of(trim_spec(s@))) == Some(p),
            r matches Err(m) ==> priority_named(lower_of(trim_spec(s@))) is None
                && m@ == invalid_priority_text(s@),
    {
        let norm = lowercase(trim_str(s));
        match Priority::from_normalized(norm.as_str()) {
            Some(p) => Ok(p),
            None => {
                let head = concat("invalid priority: '", s);
                Err(concat(head.as_str(), "'. Valid values: low, medium, high, critical"))
            },
        }
    }
}

impl Default for Priority {
    fn default() -> (r: Priority)
        ensures
            r == Priority::Medium,
    {
        Priority::Medium
    }
}

/// A task. Timestamps count microseconds since the Unix epoch (UTC).
#[derive(Clone, Debug, PartialEq, Eq)]
pub struct Task {
    pub id: u128,
    pub title: String,
    pub description: String,
    pub completed: bool,
    pub created_at: i64,
    /// Time of the most recent change to the task.
    pub updated_at: i64,
    /// Labels for grouping and searching, normalized and without repeats.
    pub tags: Vec<String>,
    pub priority: Priority,
}

/// The mathematical model of a task: its strings as character sequences.
pub struct TaskView {
    pub id: u128,
    pub title: Seq<char>,
    pub description: Seq<char>,
    pub completed: bool,
    pub created_at: i64,
    pub updated_at: i64,
    pub tags: Seq<Seq<char>>,
    pub priority: Priority,
}

/// The character sequences of a list of strings.
pub open spec fn strings_view(v: Seq<String>) -> Seq<Seq<char>> {
    v.map_values(|s: String| s@)
}

impl View for Task {
    type V = TaskView;

    open spec fn view(&self) -> TaskView {
        TaskView {
            id: self.id,
            title: self.title@,
            description: self.description@,
            completed: self.completed,
            created_at: self.created_at,
            updated_at: self.updated_at,
            tags: strings_view(self.tags@),
            priority: self.priority,
        }
    }
}

/// No tag is empty and no tag appears twice.
pub open spec fn tags_wf(tags: Seq<Seq<char>>) -> bool {
    &&& forall|i: int| 0 <= i < tags.len() ==> #[trigger] tags[i].len() > 0
    &&& forall|i: int, j: int| 0 <= i < j < tags.len() ==> #[trigger] tags[i] != #[trigger] tags[j]
}

/// Relies on `chrono::Utc::now`: the current time in microseconds since the Unix epoch,
/// which `now` only returns for times after the epoch.
#[verifier::external_body]
pub(crate) fn now_micros() -> (r: i64)
    ensures
        r >= 0,
{
    chrono::Utc::now().timestamp_micros()
}

/// Relies on `uuid::Uuid::new_v4`: a random identifier, as its 128-bit value.
#[verifier::external_body]
pub(crate) fn random_id() -> (r: u128) {
    uuid::Uuid::new_v4().as_u128()
}

impl TaskView {
    /// Creation time never lies after the last change, and the tags are well formed.
    pub open spec fn wf(self) -> bool {
        &&& self.created_at <= self.updated_at
        &&& tags_wf(self.tags)
    }

    /// The task after `upd`, changed at time `now`.
    pub open spec fn updated(self, upd: TaskUpdate, now: i64) -> TaskView {
        TaskView {
            title: match upd.title {
                Some(t) => t@,
                None => self.title,
            },
            description: match upd.description {
                Some(d) => d@,
                None => self.description,
            },
            completed: match upd.completed {
                Some(c) => c,
                None => self.completed,
            },
            updated_at: if now > self.updated_at {
                now
            } else {
                self.updated_at
            },
            ..self
        }
    }
}

impl Task {

    /// A new open task with the given identifier, created at `now`.
    pub fn with_id(id: u128, title: &str, description: &str, now: i64) -> (r: Task)
        ensures
            r@ == (TaskView {
                id,
                title: title@,
                description: description@,
                completed: false,
                created_at: now,
                updated_at: now,
                tags: Seq::empty(),
                priority: Priority::Medium,
            }),
            r@.wf(),
    {
        let r = Task {
            id,
            title: title.to_owned(),
            description: description.to_owned(),
            completed: false,
            created_at: now,
            updated_at: now,
            tags: Vec::new(),
            priority: Priority::Medium,
        };
        assert(r@.tags =~= Seq::empty());
        r
    }

    /// Create a new task with a random identifier, stamped with the current time.
    pub fn new_full(title: &str, description: &str) -> (r: Task)
        ensures
            r@.title == title@,
            r@.description == description@,
            !r@.completed,
            r@.created_at == r@.updated_at,
            r@.created_at >= 0,
            r@.tags.len() == 0,
            r@.priority == Priority::Medium,
            r@.wf(),
    {
        Task::with_id(random_id(), title, description, now_micros())
    }

    /// An independent copy of the task.
    pub fn snapshot(&self) -> (r: Task)
        ensures
            r@ == self@,
    {
        let tags = self.tags.clone();
        assert(tags@ =~= self.tags@);
        let r = Task {
            id: self.id,
            title: self.title.clone(),
            description: self.description.clone(),
            completed: self.completed,
            created_at: self.created_at,
            updated_at: self.updated_at,
            tags,
            priority: self.priority,
        };
        assert(r@.tags =~= self@.tags);
        r
    }

    /// Apply the fields present in `upd` and stamp the change at `now`; the
    /// modification time never moves backwards.
    pub fn apply_update_at(&mut self, upd: TaskUpdate, now: i64) -> (r: Task)
        ensures
            final(self)@ == old(self)@.updated(upd, now),
            r@ == final(self)@,
    {
        if let Some(t) = upd.title {
            self.title = t;
        }
        if let Some(d) = upd.description {
            self.description = d;
        }
        if let Some(c) = upd.completed {
            self.completed = c;
        }
        if now > self.updated_at {
            self.updated_at = now;
        }
        self.snapshot()
    }

    /// Apply the fields present in `upd` in place, stamp the change with the
    /// current time, and return the updated copy.
    pub fn apply_update(&mut self, upd: TaskUpdate) -> (r: Task)
        ensures
            exists|now: i64| final(self)@ == old(self)@.updated(upd, now),
            final(self)@.updated_at >= old(self)@.updated_at,
            r@ == final(self)@,
    {
        let now = now_micros();
        self.apply_update_at(upd, now)
    }
}

/// Input record for task creation.
#[derive(Clone, Debug)]
pub struct TaskCreate {
    pub title: String,
    pub description: String,
}

impl TaskCreate {
    /// A candidate is valid when its title holds more than whitespace.
    pub open spec fn is_valid(&self) -> bool {
        trim_spec(self.title@).len() > 0
    }

    /// Basic validation for creation records.
    pub fn validate(&self) -> (r: Result<(), String>)
        ensures
            r is Ok <==> self.is_valid(),
            r matches Err(m) ==> m@ == "title must not be empty"@,
    {
        if trim_str(self.title.as_str()).is_empty() {
            return Err("title must not be empty".to_owned());
        }
        Ok(())
    }
}

/// Input record for task updates: each present field replaces the task's own.
#[derive(Clone, Debug)]
pub struct TaskUpdate {
    pub title: Option<String>,
    pub description: Option<String>,
    pub completed: Option<bool>,
}

/// An update with every field absent changes nothing but the modification
/// time, which does not move backwards and keeps the task well formed.
pub proof fn lemma_empty_update(t: TaskView, now: i64)
    requires
        t.wf(),
    ensures
        ({
            let u = t.updated(TaskUpdate { title: None, description: None, completed: None }, now);
            &&& u == (TaskView { updated_at: u.updated_at, ..t })
            &&& u.updated_at >= t.updated_at
            &&& u.wf()
        }),
{
}

} // verus!
