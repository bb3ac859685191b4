//! The background activities of the command engine: the registry of named
//! tasks, and what the tasks that send G-codes send next.

use crate::text::{
    append, bytes_eq, lemma_run_end, lemma_texts_push, lemma_views_push, run_end, scan, slice,
    slices, texts, Class, CARRIAGE_RETURN, NEWLINE, SEMICOLON, TAB,
};
use vstd::prelude::*;
use vstd::string::StringSliceAdditionalSpecFns;

verus! {

/// A task that runs in the background: what it is, in a word, and the handle
/// by which it is ended.
#[derive(Debug)]
pub struct BackgroundTask<H> {
    pub description: &'static str,
    pub abort_handle: H,
}

/// No text occurs twice in `names`.
pub open spec fn distinct(names: Seq<Seq<u8>>) -> bool {
    forall|i: int, j: int| 0 <= i < j < names.len() ==> names[i] != names[j]
}

/// The line that tells of a task: its name, a tab, what it is, and a line
/// feed.
pub open spec fn task_line(name: Seq<u8>, description: &'static str) -> Seq<u8> {
    name + seq![TAB] + description.spec_bytes() + seq![NEWLINE]
}

/// The tasks of the command engine, each under its name.
#[derive(Debug)]
pub struct Tasks<H> {
    names: Vec<Vec<u8>>,
    tasks: Vec<BackgroundTask<H>>,
}

impl<H> Tasks<H> {
    /// The names of the tasks, in the order in which they were first taken.
    pub closed spec fn names(&self) -> Seq<Seq<u8>> {
        texts(self.names)
    }

    /// The tasks, each at the place of its name.
    pub closed spec fn tasks(&self) -> Seq<BackgroundTask<H>> {
        self.tasks@
    }

    /// Every task has a name, and no name is taken twice.
    pub open spec fn wf(&self) -> bool {
        self.names().len() == self.tasks().len() && distinct(self.names())
    }

    /// A task of this name is registered.
    pub open spec fn has(&self, name: Seq<u8>) -> bool {
        self.names().contains(name)
    }

    /// An empty registry.
    pub fn new() -> (registry: Self)
        ensures
            registry.names().len() == 0,
            registry.tasks().len() == 0,
            registry.wf(),
    {
        let registry = Tasks { names: Vec::new(), tasks: Vec::new() };
        assert(registry.names() =~= Seq::<Seq<u8>>::empty());
        registry
    }

    /// How many tasks are registered.
    pub fn len(&self) -> (n: usize)
        ensures
            n == self.tasks().len(),
    {
        self.tasks.len()
    }

    fn find(&self, name: &[u8]) -> (at: Option<usize>)
        requires
            self.wf(),
        ensures
            match at {
                Some(i) => i < self.names().len() && self.names()[i as int] == name@,
                None => !self.has(name@),
            },
    {
        let mut i: usize = 0;
        while i < self.names.len()
            invariant
                i <= self.names@.len(),
                forall|j: int| 0 <= j < i ==> self.names()[j] != name@,
            decreases self.names@.len() - i,
        {
            if bytes_eq(self.names[i].as_slice(), name) {
                return Some(i);
            }
            i += 1;
        }
        None
    }

    /// Registers a task under `name`. A task that held the name before gives
    /// way to it and is returned, to be ended.
    pub fn insert(&mut self, name: Vec<u8>, task: BackgroundTask<H>) -> (former: Option<
        BackgroundTask<H>,
    >)
        requires
            old(self).wf(),
        ensures
            final(self).wf(),
            final(self).has(name@),
            match former {
                Some(displaced) => exists|i: int|
                    0 <= i < old(self).names().len() && #[trigger] old(self).names()[i] == name@
                        && old(self).tasks()[i] == displaced && final(self).names() == old(
                        self,
                    ).names() && final(self).tasks() == old(self).tasks().update(i, task),
                None => !old(self).has(name@) && final(self).names() == old(self).names().push(
                    name@,
                ) && final(self).tasks() == old(self).tasks().push(task),
            },
    {
        match self.find(name.as_slice()) {
            Some(i) => {
                let mut task = task;
                core::mem::swap(&mut self.tasks[i], &mut task);
                assert(self.names()[i as int] == name@);
                Some(task)
            },
            None => {
                let ghost shorter = self.names;
                self.names.push(name);
                self.tasks.push(task);
                proof {
                    lemma_texts_push(shorter, self.names, name);
                    assert(self.names()[self.names().len() - 1] == name@);
                }
                None
            },
        }
    }

    /// Takes the task of this name out of the registry and returns it, to be
    /// ended.
    pub fn remove(&mut self, name: &[u8]) -> (task: Option<BackgroundTask<H>>)
        requires
            old(self).wf(),
        ensures
            final(self).wf(),
            !final(self).has(name@),
            match task {
                Some(removed) => exists|i: int|
                    0 <= i < old(self).names().len() && #[trigger] old(self).names()[i] == name@
                        && old(self).tasks()[i] == removed && final(self).names() == old(
                        self,
                    ).names().remove(i) && final(self).tasks() == old(self).tasks().remove(i),
                None => !old(self).has(name@) && final(self).names() == old(self).names()
                    && final(self).tasks() == old(self).tasks(),
            },
    {
        match self.find(name) {
            Some(i) => {
                let _ = self.names.remove(i);
                let task = self.tasks.remove(i);
                proof {
                    assert(self.names() =~= old(self).names().remove(i as int));
                    assert(old(self).names()[i as int] == name@);
                    if self.has(name@) {
                        let k = choose|k: int|
                            0 <= k < self.names().len() && self.names()[k] == name@;
                        let before = if k < i {
                            k
                        } else {
                            k + 1
                        };
                        assert(old(self).names()[before] == name@);
                    }
                    assert forall|a: int, b: int| 0 <= a < b < self.names().len() implies self.names()[a]
                        != self.names()[b] by {
                        let x = if a < i {
                            a
                        } else {
                            a + 1
                        };
                        let y = if b < i {
                            b
                        } else {
                            b + 1
                        };
                        assert(old(self).names()[x] != old(self).names()[y]);
                    }
                }
                Some(task)
            },
            None => None,
        }
    }

    /// Empties the registry and returns every task, to be ended.
    pub fn clear(&mut self) -> (all: Vec<BackgroundTask<H>>)
        ensures
            final(self).wf(),
            final(self).names().len() == 0,
            final(self).tasks().len() == 0,
            all@ == old(self).tasks(),
    {
        let mut all: Vec<BackgroundTask<H>> = Vec::new();
        core::mem::swap(&mut self.tasks, &mut all);
        self.names = Vec::new();
        assert(self.names() =~= Seq::<Seq<u8>>::empty());
        all
    }

    /// One line for each task: its name, a tab, what it is, and a line feed.
    pub fn list(&self) -> (lines: Vec<Vec<u8>>)
        requires
            self.wf(),
        ensures
            lines@.len() == self.tasks().len(),
            forall|i: int|
                0 <= i < lines@.len() ==> (#[trigger] lines@[i])@ == task_line(
                    self.names()[i],
                    self.tasks()[i].description,
                ),
    {
        let mut lines: Vec<Vec<u8>> = Vec::new();
        let mut i: usize = 0;
        while i < self.tasks.len()
            invariant
                i <= self.tasks@.len(),
                self.wf(),
                lines@.len() == i,
                forall|j: int|
                    0 <= j < i ==> (#[trigger] lines@[j])@ == task_line(
                        self.names()[j],
                        self.tasks()[j].description,
                    ),
            decreases self.tasks@.len() - i,
        {
            let mut line: Vec<u8> = Vec::new();
            append(&mut line, self.names[i].as_slice());
            line.push(TAB);
            append(&mut line, self.tasks[i].description.as_bytes());
            line.push(NEWLINE);
            assert(line@ =~= task_line(self.names()[i as int], self.tasks()[i as int].description));
            lines.push(line);
            i += 1;
        }
        lines
    }
}

/// Where the line that starts at `at` ends: at the next line feed, or at the
/// end of the text.
pub open spec fn line_end(text: Seq<u8>, at: int) -> int {
    run_end(text, at, Class::Until(NEWLINE))
}

/// Where what the line from `at` to `end` holds ends: before the carriage
/// return that stands before its line feed, if there is one.
pub open spec fn content_end(text: Seq<u8>, at: int, end: int) -> int {
    if at < end < text.len() && text[end - 1] == CARRIAGE_RETURN {
        end - 1
    } else {
        end
    }
}

/// Where the G-code of the line from `at` ends: at its first `;`, where the
/// comment starts, or where the line ends.
pub open spec fn code_end(text: Seq<u8>, at: int) -> int {
    let comment = run_end(text, at, Class::Until(SEMICOLON));
    let content = content_end(text, at, line_end(text, at));
    if comment < content {
        comment
    } else {
        content
    }
}

/// The G-codes of a file from `at` on: of each line what stands before its
/// first `;`, and nothing of a line where that is empty.
pub open spec fn gcode_lines_from(text: Seq<u8>, at: int) -> Seq<Seq<u8>>
    decreases text.len() - at,
{
    if 0 <= at < text.len() {
        let end = line_end(text, at);
        if at <= end <= text.len() {
            let code = text.subrange(at, code_end(text, at));
            let rest = if end < text.len() {
                gcode_lines_from(text, end + 1)
            } else {
                Seq::empty()
            };
            if code.len() > 0 {
                seq![code] + rest
            } else {
                rest
            }
        } else {
            Seq::empty()
        }
    } else {
        Seq::empty()
    }
}

/// The G-codes that a file holds, line by line, without comments and empty
/// lines.
pub fn gcode_lines<'a>(text: &'a [u8]) -> (codes: Vec<&'a [u8]>)
    ensures
        slices(codes@) == gcode_lines_from(text@, 0),
{
    let mut codes: Vec<&'a [u8]> = Vec::new();
    let mut at: usize = 0;
    assert(slices(codes@) + gcode_lines_from(text@, 0) =~= gcode_lines_from(text@, 0));
    while at < text.len()
        invariant
            at <= text@.len(),
            slices(codes@) + gcode_lines_from(text@, at as int) == gcode_lines_from(text@, 0),
        decreases text@.len() - at,
    {
        let end = scan(text, at, Class::Until(NEWLINE));
        let content = if at < end && end < text.len() && text[end - 1] == CARRIAGE_RETURN {
            end - 1
        } else {
            end
        };
        let comment = scan(text, at, Class::Until(SEMICOLON));
        let stop = if comment < content {
            comment
        } else {
            content
        };
        let next = if end < text.len() {
            end + 1
        } else {
            end
        };
        proof {
            lemma_run_end(text@, at as int, Class::Until(NEWLINE));
            lemma_run_end(text@, at as int, Class::Until(SEMICOLON));
            assert(gcode_lines_from(text@, text@.len() as int) =~= Seq::<Seq<u8>>::empty());
        }
        if stop > at {
            let code = slice(text, at, stop);
            proof {
                lemma_views_push(codes@, code);
                assert(slices(codes@).push(code@) + gcode_lines_from(text@, next as int)
                    =~= slices(codes@) + (seq![code@] + gcode_lines_from(text@, next as int)));
            }
            codes.push(code);
        }
        at = next;
    }
    assert(slices(codes@) + Seq::<Seq<u8>>::empty() =~= slices(codes@));
    codes
}

/// The G-codes that a task sends over and over, and which comes next.
#[derive(Debug)]
pub struct Repeater {
    codes: Vec<Vec<u8>>,
    next: usize,
}

impl Repeater {
    /// The G-codes of the cycle.
    pub closed spec fn codes(&self) -> Seq<Seq<u8>> {
        texts(self.codes)
    }

    /// The place in the cycle of the G-code that comes next.
    pub closed spec fn position(&self) -> int {
        self.next as int
    }

    /// The next G-code is one of the cycle, or the cycle is empty.
    pub open spec fn wf(&self) -> bool {
        0 <= self.position() && (self.position() < self.codes().len() || self.codes().len() == 0)
    }

    /// A cycle through `codes` that starts with the first.
    pub fn new(codes: Vec<Vec<u8>>) -> (cycle: Self)
        ensures
            cycle.codes() == texts(codes),
            cycle.position() == 0,
            cycle.wf(),
    {
        Repeater { codes, next: 0 }
    }

    /// The G-code to send now; the one after it comes next, and after the last
    /// the first. An empty cycle has nothing to send.
    pub fn advance(&mut self) -> (code: Option<&Vec<u8>>)
        requires
            old(self).wf(),
        ensures
            final(self).wf(),
            final(self).codes() == old(self).codes(),
            match code {
                Some(c) => old(self).codes().len() > 0 && c@ == old(self).codes()[old(
                    self,
                ).position()] && final(self).position() == if old(self).position() + 1 == old(
                    self,
                ).codes().len() {
                    0
                } else {
                    old(self).position() + 1
                },
                None => old(self).codes().len() == 0 && final(self).position() == old(
                    self,
                ).position(),
            },
    {
        if self.codes.len() == 0 {
            return None;
        }
        let now = self.next;
        self.next = if now + 1 == self.codes.len() {
            0
        } else {
            now + 1
        };
        assert(texts(self.codes)[now as int] == self.codes@[now as int]@);
        Some(&self.codes[now])
    }
}

} // verus!
