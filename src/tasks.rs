use vstd::prelude::*;

verus! {

/// What a task is to the proofs: its description and whether it is done.
pub type TaskModel = (Seq<char>, bool);

/// The marker a listing puts before a description.
pub open spec fn status_marker(completed: bool) -> Seq<char> {
    if completed {
        seq!['[', 'x', ']', ' ']
    } else {
        seq!['[', ' ', ']', ' ']
    }
}

/// How a task is shown in a listing: `[x] <description>` or `[ ] <description>`.
pub open spec fn rendered(t: TaskModel) -> Seq<char> {
    status_marker(t.1) + t.0
}

/// The store after completing position `index`: that task is marked done,
/// and an index out of range leaves everything as it was.
pub open spec fn completed_at(m: Seq<TaskModel>, index: int) -> Seq<TaskModel> {
    if 0 <= index < m.len() {
        m.update(index, (m[index].0, true))
    } else {
        m
    }
}

/// The field separator of the saved format.
pub open spec fn is_delimiter(c: char) -> bool {
    c == '|'
}

/// Holds when no character of `s` is the field separator.
pub open spec fn delimiter_free(s: Seq<char>) -> bool {
    forall|i: int| 0 <= i < s.len() ==> !is_delimiter(#[trigger] s[i])
}

/// The text of a set completion flag in the saved format.
pub open spec fn true_text() -> Seq<char> {
    seq!['t', 'r', 'u', 'e']
}

/// The text of a clear completion flag in the saved format.
pub open spec fn false_text() -> Seq<char> {
    seq!['f', 'a', 'l', 's', 'e']
}

/// The saved line of one task: `<description>|true` or `<description>|false`.
pub open spec fn record_line(t: TaskModel) -> Seq<char> {
    t.0 + seq!['|'] + (if t.1 { true_text() } else { false_text() })
}

/// Holds when `line` is two separator-free fields around one separator at `k`.
pub open spec fn splits_at(line: Seq<char>, k: int) -> bool {
    &&& 0 <= k < line.len()
    &&& is_delimiter(line[k])
    &&& delimiter_free(line.subrange(0, k))
    &&& delimiter_free(line.subrange(k + 1, line.len() as int))
}

/// The task a saved line stands for: a line with exactly one separator gives
/// its first field as the description, completed exactly when the second
/// field is `true`; any other line stands for no task.
pub open spec fn parse_record(line: Seq<char>) -> Option<TaskModel> {
    if exists|k: int| splits_at(line, k) {
        let k = choose|k: int| splits_at(line, k);
        Some((line.subrange(0, k), line.subrange(k + 1, line.len() as int) == true_text()))
    } else {
        None
    }
}

/// The tasks that a run of saved lines stands for, in order, skipping the
/// lines that stand for none.
pub open spec fn parse_records(lines: Seq<Seq<char>>) -> Seq<TaskModel>
    decreases lines.len(),
{
    if lines.len() == 0 {
        Seq::empty()
    } else {
        let before = parse_records(lines.drop_last());
        match parse_record(lines.last()) {
            Some(t) => before.push(t),
            None => before,
        }
    }
}

/// Any two splitting positions of a line are the same.
proof fn lemma_split_unique(line: Seq<char>, k: int, j: int)
    requires
        splits_at(line, k),
        splits_at(line, j),
    ensures
        k == j,
{
    if j < k {
        assert(line.subrange(0, k)[j] == line[j]);
    } else if k < j {
        assert(line.subrange(0, j)[k] == line[k]);
    }
}

/// A line splitting at `k` stands for the task made of its two fields.
pub proof fn lemma_parse_at(line: Seq<char>, k: int)
    requires
        splits_at(line, k),
    ensures
        parse_record(line) == Some(
            (line.subrange(0, k), line.subrange(k + 1, line.len() as int) == true_text()),
        ),
{
    let c = choose|c: int| splits_at(line, c);
    lemma_split_unique(line, k, c);
}

/// The saved lines of a run of tasks, in order.
pub open spec fn record_lines(m: Seq<TaskModel>) -> Seq<Seq<char>> {
    m.map_values(|t: TaskModel| record_line(t))
}

/// One task: a free-form description and a one-way completion flag.
#[derive(Debug, PartialEq)]
pub struct Task {
    pub description: String,
    pub completed: bool,
}

impl View for Task {
    type V = TaskModel;

    open spec fn view(&self) -> TaskModel {
        (self.description@, self.completed)
    }
}

impl Task {
    /// A task that is not yet completed.
    pub fn new(description: String) -> (r: Task)
        ensures
            r@ == (description@, false),
    {
        Task { description, completed: false }
    }
}

/// The ordered collection of tasks; a task is addressed by its position.
pub struct TaskManager {
    pub tasks: Vec<Task>,
}

impl View for TaskManager {
    type V = Seq<TaskModel>;

    open spec fn view(&self) -> Seq<TaskModel> {
        self.tasks@.map_values(|t: Task| t@)
    }
}

/// Holds when `text` is exactly `true`.
fn is_true_text(text: &str) -> (r: bool)
    ensures
        r == (text@ == true_text()),
{
    if text.unicode_len() != 4 {
        return false;
    }
    let r = text.get_char(0) == 't' && text.get_char(1) == 'r' && text.get_char(2) == 'u'
        && text.get_char(3) == 'e';
    if r {
        assert(text@ =~= true_text());
    }
    r
}

/// Reads one saved line: `Some` task when the line holds exactly one `|`,
/// with the text before it as the description and completed exactly when
/// the text after it is `true`; `None` for any other line.
pub fn parse_line(line: &str) -> (r: Option<Task>)
    ensures
        match r {
            Some(t) => parse_record(line@) == Some(t@),
            None => parse_record(line@) is None,
        },
{
    let n = line.unicode_len();
    let mut first: Option<usize> = None;
    let mut second = false;
    let mut i: usize = 0;
    for c in it: line.chars()
        invariant
            n == line@.len(),
            it.seq() == line@,
            i == it.index(),
            i <= n,
            first is None ==> delimiter_free(line@.subrange(0, i as int)),
            first is None ==> !second,
            first matches Some(p) ==> {
                &&& p < i
                &&& is_delimiter(line@[p as int])
                &&& delimiter_free(line@.subrange(0, p as int))
                &&& !second ==> delimiter_free(line@.subrange(p + 1, i as int))
                &&& second ==> exists|q: int| p < q < i && is_delimiter(#[trigger] line@[q])
            },
    {
        assert(c == line@[i as int]);
        if c == '|' {
            match first {
                None => {
                    first = Some(i);
                },
                Some(p) => {
                    second = true;
                    assert(p < i && is_delimiter(line@[i as int]));
                },
            }
        }
        proof {
            match first {
                None => {
                    assert(line@.subrange(0, i + 1) =~= line@.subrange(0, i as int).push(c));
                },
                Some(p) => {
                    if p == i {
                        assert(line@.subrange(0, i as int) =~= line@.subrange(0, p as int));
                    } else if !second {
                        assert(line@.subrange(p + 1, i + 1) =~= line@.subrange(p + 1, i as int).push(c));
                    }
                }
            }
        }
        i = i + 1;
    }
    match first {
        None => {
            proof {
                assert forall|k: int| !splits_at(line@, k) by {
                    if 0 <= k < line@.len() {
                        assert(line@.subrange(0, n as int)[k] == line@[k]);
                    }
                }
            }
            None
        },
        Some(p) => {
            if second {
                proof {
                    let q = choose|q: int| p < q < n && is_delimiter(#[trigger] line@[q]);
                    assert forall|k: int| !splits_at(line@, k) by {
                        if splits_at(line@, k) {
                            if k < q {
                                assert(line@.subrange(k + 1, n as int)[q - k - 1] == line@[q]);
                            } else {
                                assert(line@.subrange(0, k)[p as int] == line@[p as int]);
                            }
                        }
                    }
                }
                None
            } else {
                let description = line.substring_char(0, p);
                let flag = line.substring_char(p + 1, n);
                let completed = is_true_text(flag);
                proof {
                    lemma_parse_at(line@, p as int);
                }
                Some(Task { description: String::from_str(description), completed })
            }
        },
    }
}

impl TaskManager {
    /// An empty store.
    pub fn new() -> (r: TaskManager)
        ensures
            r@ == Seq::<TaskModel>::empty(),
    {
        TaskManager { tasks: Vec::new() }
    }

    /// Appends a task that is not yet completed.
    pub fn add_task(&mut self, description: String)
        ensures
            final(self)@ == old(self)@.push((description@, false)),
    {
        let task = Task::new(description);
        self.tasks.push(task);
        assert(self@ =~= old(self)@.push((description@, false)));
    }

    /// Marks the task at `index` completed; an index out of range changes
    /// nothing and is not an error.
    pub fn complete_task(&mut self, index: usize)
        ensures
            final(self)@ == completed_at(old(self)@, index as int),
    {
        if index < self.tasks.len() {
            self.tasks[index].completed = true;
            assert(self@ =~= old(self)@.update(index as int, (old(self)@[index as int].0, true)));
        }
    }

    /// One line per task, in order, each as `rendered` gives it.
    pub fn list_tasks(&self) -> (r: Vec<String>)
        ensures
            r@.len() == self@.len(),
            forall|i: int| 0 <= i < r@.len() ==> #[trigger] r@[i]@ == rendered(self@[i]),
    {
        let mut lines: Vec<String> = Vec::new();
        let mut i: usize = 0;
        while i < self.tasks.len()
            invariant
                i <= self.tasks@.len(),
                lines@.len() == i,
                forall|j: int| 0 <= j < i ==> #[trigger] lines@[j]@ == rendered(self@[j]),
            decreases self.tasks@.len() - i,
        {
            let task = &self.tasks[i];
            let mut line = if task.completed {
                String::from_str("[x] ")
            } else {
                String::from_str("[ ] ")
            };
            proof {
                reveal_strlit("[x] ");
                reveal_strlit("[ ] ");
            }
            line.append(task.description.as_str());
            lines.push(line);
            i = i + 1;
        }
        lines
    }

    /// The saved form of the store: one line per task, in order, each as
    /// `record_line` gives it (the line ends are the writer's to add).
    pub fn save_lines(&self) -> (r: Vec<String>)
        ensures
            r@.len() == self@.len(),
            forall|i: int| 0 <= i < r@.len() ==> #[trigger] r@[i]@ == record_line(self@[i]),
            r@.map_values(|l: String| l@) == record_lines(self@),
    {
        let mut lines: Vec<String> = Vec::new();
        let mut i: usize = 0;
        while i < self.tasks.len()
            invariant
                i <= self.tasks@.len(),
                lines@.len() == i,
                forall|j: int| 0 <= j < i ==> #[trigger] lines@[j]@ == record_line(self@[j]),
            decreases self.tasks@.len() - i,
        {
            let task = &self.tasks[i];
            let mut line = String::from_str(task.description.as_str());
            line.append("|");
            if task.completed {
                line.append("true");
            } else {
                line.append("false");
            }
            proof {
                reveal_strlit("|");
                reveal_strlit("true");
                reveal_strlit("false");
            }
            lines.push(line);
            i = i + 1;
        }
        assert(lines@.map_values(|l: String| l@) =~= record_lines(self@));
        lines
    }

    /// Replaces the whole store by the tasks that `lines` stand for, in order;
    /// a line that stands for no task is skipped.
    pub fn load_lines(&mut self, lines: &Vec<String>)
        ensures
            final(self)@ == parse_records(lines@.map_values(|l: String| l@)),
    {
        let ghost text = lines@.map_values(|l: String| l@);
        self.tasks = Vec::new();
        let mut i: usize = 0;
        while i < lines.len()
            invariant
                i <= lines@.len(),
                text == lines@.map_values(|l: String| l@),
                self@ == parse_records(text.subrange(0, i as int)),
            decreases lines@.len() - i,
        {
            let parsed = parse_line(lines[i].as_str());
            assert(text.subrange(0, i + 1).drop_last() =~= text.subrange(0, i as int));
            match parsed {
                Some(task) => {
                    self.tasks.push(task);
                    assert(self@ =~= parse_records(text.subrange(0, i + 1)));
                },
                None => {},
            }
            i = i + 1;
        }
        assert(text.subrange(0, i as int) =~= text);
    }
}

} // verus!
