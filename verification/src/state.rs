//! The application's running tasks and device selection.
use vstd::prelude::*;

use crate::seqs::{
    first_index, lemma_filter_step, lemma_filter_subset, lemma_first_index_is,
    lemma_first_index_none, lemma_first_index_some,
};
use crate::text::{copy_str, str_eq};

verus! {

/// The task that watches for devices; switching devices leaves it running.
pub const DEVICE_MONITOR_TASK: &'static str = "device-monitor";

/// A task under `key`.
pub open spec fn task_named<T>(key: Seq<char>) -> spec_fn((Seq<char>, T)) -> bool {
    |p: (Seq<char>, T)| p.0 == key
}

/// A task under another key than the device monitor's.
pub open spec fn device_task<T>() -> spec_fn((Seq<char>, T)) -> bool {
    |p: (Seq<char>, T)| p.0 != DEVICE_MONITOR_TASK@
}

/// A task under the device monitor's key.
pub open spec fn monitor_task<T>() -> spec_fn((Seq<char>, T)) -> bool {
    |p: (Seq<char>, T)| p.0 == DEVICE_MONITOR_TASK@
}

/// At most one task per key.
pub open spec fn keys_unique<T>(s: Seq<(Seq<char>, T)>) -> bool {
    forall|i: int, j: int| 0 <= i < s.len() && 0 <= j < s.len() && i != j ==> s[i].0 != s[j].0
}

/// The token of the task under `key`.
pub open spec fn task_lookup<T>(s: Seq<(Seq<char>, T)>, key: Seq<char>) -> Option<T> {
    match first_index(s, task_named::<T>(key)) {
        Some(i) => Some(s[i].1),
        None => None,
    }
}

/// `s` with `token` under `key`, replacing the task there.
pub open spec fn task_insert<T>(s: Seq<(Seq<char>, T)>, key: Seq<char>, token: T) -> Seq<(Seq<char>, T)> {
    match first_index(s, task_named::<T>(key)) {
        Some(i) => s.update(i, (key, token)),
        None => s.push((key, token)),
    }
}

/// `s` without the task under `key`.
pub open spec fn task_remove<T>(s: Seq<(Seq<char>, T)>, key: Seq<char>) -> Seq<(Seq<char>, T)> {
    match first_index(s, task_named::<T>(key)) {
        Some(i) => s.remove(i),
        None => s,
    }
}

/// The tasks in the order they were registered.
#[derive(Debug)]
struct TaskList<T> {
    tasks: Vec<(String, T)>,
}

impl<T> TaskList<T> {
    closed spec fn view(&self) -> Seq<(Seq<char>, T)> {
        self.tasks@.map_values(|p: (String, T)| (p.0@, p.1))
    }

    fn new() -> (r: TaskList<T>)
        ensures
            r.view() == Seq::<(Seq<char>, T)>::empty(),
    {
        let r = TaskList { tasks: Vec::new() };
        assert(r.view() =~= Seq::<(Seq<char>, T)>::empty());
        r
    }

    fn position(&self, key: &str) -> (r: Option<usize>)
        ensures
            match r {
                Some(i) => i < self.view().len() && first_index(self.view(), task_named::<T>(key@))
                    == Some(i as int),
                None => first_index(self.view(), task_named::<T>(key@)) is None,
            },
    {
        let ghost v = self.view();
        let mut i: usize = 0;
        while i < self.tasks.len()
            invariant
                i <= self.tasks.len(),
                v == self.view(),
                forall|j: int| 0 <= j < i ==> !task_named::<T>(key@)(#[trigger] v[j]),
            decreases self.tasks.len() - i,
        {
            assert(v[i as int] == (self.tasks@[i as int].0@, self.tasks@[i as int].1));
            if str_eq(self.tasks[i].0.as_str(), key) {
                proof {
                    lemma_first_index_is(v, task_named::<T>(key@), i as int);
                }
                return Some(i);
            }
            i = i + 1;
        }
        proof {
            lemma_first_index_none(v, task_named::<T>(key@));
        }
        None
    }

    /// Registers `token` under `key` and gives back the token it replaces,
    /// which the caller cancels.
    fn replace_task(&mut self, key: &str, token: T) -> (r: Option<T>)
        requires
            keys_unique(old(self).view()),
        ensures
            keys_unique(final(self).view()),
            final(self).view() == task_insert(old(self).view(), key@, token),
            r == task_lookup(old(self).view(), key@),
    {
        let ghost v = self.view();
        let ghost t = token;
        match self.position(key) {
            Some(i) => {
                let (k, previous) = self.tasks.remove(i);
                self.tasks.insert(i, (k, token));
                proof {
                    lemma_first_index_some(v, task_named::<T>(key@));
                    assert(self.view() =~= v.update(i as int, (key@, t))) by {
                        assert forall|j: int| 0 <= j < v.len() implies self.view()[j] == v.update(
                            i as int,
                            (key@, t),
                        )[j] by {
                            if j < i {
                                assert(self.tasks@[j] == old(self).tasks@[j]);
                            } else if j > i {
                                assert(self.tasks@[j] == old(self).tasks@[j]);
                            }
                        }
                    }
                    assert forall|a: int, b: int|
                        0 <= a < self.view().len() && 0 <= b < self.view().len() && a != b implies self.view()[a].0
                        != self.view()[b].0 by {
                        assert(self.view()[a].0 == v[a].0 && self.view()[b].0 == v[b].0);
                    }
                }
                Some(previous)
            },
            None => {
                let ghost before = self.tasks@;
                self.tasks.push((copy_str(key), token));
                proof {
                    assert(self.view() =~= v.push((key@, t))) by {
                        assert forall|j: int| 0 <= j < v.len() implies self.view()[j] == v[j] by {
                            assert(self.tasks@[j] == before[j]);
                        }
                    }
                    assert forall|j: int| 0 <= j < v.len() implies v[j].0 != key@ by {
                        assert(!task_named::<T>(key@)(v[j]));
                    }
                    assert forall|a: int, b: int|
                        0 <= a < self.view().len() && 0 <= b < self.view().len() && a != b implies self.view()[a].0
                        != self.view()[b].0 by {
                        if a < v.len() && b < v.len() {
                            assert(self.view()[a] == v[a] && self.view()[b] == v[b]);
                        } else if a < v.len() {
                            assert(self.view()[a] == v[a]);
                        } else {
                            assert(self.view()[b] == v[b]);
                        }
                    }
                }
                None
            },
        }
    }

    /// Takes the task under `key` out, giving its token to cancel.
    fn cancel_task(&mut self, key: &str) -> (r: Option<T>)
        requires
            keys_unique(old(self).view()),
        ensures
            keys_unique(final(self).view()),
            final(self).view() == task_remove(old(self).view(), key@),
            r == task_lookup(old(self).view(), key@),
    {
        let ghost v = self.view();
        match self.position(key) {
            Some(i) => {
                let (_k, token) = self.tasks.remove(i);
                proof {
                    assert(self.view() =~= v.remove(i as int)) by {
                        assert forall|j: int| 0 <= j < v.len() - 1 implies self.view()[j] == v.remove(
                            i as int,
                        )[j] by {
                            if j < i {
                                assert(self.tasks@[j] == old(self).tasks@[j]);
                            } else {
                                assert(self.tasks@[j] == old(self).tasks@[j + 1]);
                            }
                        }
                    }
                    assert forall|a: int, b: int|
                        0 <= a < self.view().len() && 0 <= b < self.view().len() && a != b implies self.view()[a].0
                        != self.view()[b].0 by {
                        let aa = if a < i { a } else { a + 1 };
                        let bb = if b < i { b } else { b + 1 };
                        assert(self.view()[a] == v[aa] && self.view()[b] == v[bb]);
                    }
                }
                Some(token)
            },
            None => None,
        }
    }

    /// Takes out every task but the device monitor, giving them back to be
    /// cancelled, in order.
    fn cancel_device_tasks(&mut self) -> (r: Vec<(String, T)>)
        requires
            keys_unique(old(self).view()),
        ensures
            keys_unique(final(self).view()),
            final(self).view() == old(self).view().filter(monitor_task::<T>()),
            r@.map_values(|p: (String, T)| (p.0@, p.1)) == old(self).view().filter(device_task::<T>()),
    {
        let ghost v = self.view();
        let mut input: Vec<(String, T)> = Vec::new();
        std::mem::swap(&mut input, &mut self.tasks);
        let mut kept: Vec<(String, T)> = Vec::new();
        let mut removed: Vec<(String, T)> = Vec::new();
        let ghost mut i: int = 0;
        let ghost f = |p: (String, T)| (p.0@, p.1);
        assert(input@.map_values(f) =~= v.skip(0));
        assert(v.take(0).filter(monitor_task::<T>()) =~= Seq::<(Seq<char>, T)>::empty()) by {
            reveal(Seq::filter);
        }
        assert(v.take(0).filter(device_task::<T>()) =~= Seq::<(Seq<char>, T)>::empty()) by {
            reveal(Seq::filter);
        }
        while input.len() > 0
            invariant
                0 <= i <= v.len(),
                f == (|p: (String, T)| (p.0@, p.1)),
                input@.len() == v.len() - i,
                input@.map_values(f) == v.skip(i),
                kept@.map_values(f) == v.take(i).filter(monitor_task::<T>()),
                removed@.map_values(f) == v.take(i).filter(device_task::<T>()),
            decreases input.len(),
        {
            let ghost old_input = input@;
            let p = input.remove(0);
            proof {
                assert(old_input.map_values(f)[0] == f(p));
                assert(v.skip(i)[0] == v[i]);
                assert(input@.map_values(f) =~= v.skip(i + 1)) by {
                    assert forall|j: int| 0 <= j < input@.len() implies input@.map_values(f)[j] == v.skip(
                        i + 1,
                    )[j] by {
                        assert(input@[j] == old_input[j + 1]);
                        assert(old_input.map_values(f)[j + 1] == v.skip(i)[j + 1]);
                    }
                }
                lemma_filter_step(v, monitor_task::<T>(), i);
                lemma_filter_step(v, device_task::<T>(), i);
            }
            if str_eq(p.0.as_str(), DEVICE_MONITOR_TASK) {
                let ghost prev = kept@;
                kept.push(p);
                assert(kept@.map_values(f) =~= prev.map_values(f).push(v[i]));
            } else {
                let ghost prev = removed@;
                removed.push(p);
                assert(removed@.map_values(f) =~= prev.map_values(f).push(v[i]));
            }
            proof {
                i = i + 1;
            }
        }
        assert(v.take(i) =~= v);
        self.tasks = kept;
        proof {
            assert(self.view() == kept@.map_values(f));
            lemma_filter_subset(v, monitor_task::<T>());
            let g = self.view();
            assert forall|a: int, b: int| 0 <= a < g.len() && 0 <= b < g.len() && a != b implies g[a].0
                != g[b].0 by {
                assert(monitor_task::<T>()(g[a]) && monitor_task::<T>()(g[b]));
                if g.len() >= 2 {
                    let x = choose|x: int| 0 <= x < v.len() && v[x] == g[a];
                    let y = choose|y: int| 0 <= y < v.len() && v[y] == g[b];
                    lemma_filter_distinct(v, monitor_task::<T>(), a, b);
                }
            }
        }
        removed
    }
}

/// Tasks keyed by name, each with the token that cancels it; at most one
/// task per key.
#[derive(Debug)]
pub struct TaskRegistry<T> {
    list: TaskList<T>,
}

impl<T> TaskRegistry<T> {
    /// One task per key, always.
    #[verifier::type_invariant]
    spec fn keys_stay_unique(&self) -> bool {
        keys_unique(self.list.view())
    }

    /// The tasks, in the order they were registered, by key and token.
    pub closed spec fn view(&self) -> Seq<(Seq<char>, T)> {
        self.list.view()
    }

    /// No tasks.
    pub fn new() -> (r: TaskRegistry<T>)
        ensures
            r.view() == Seq::<(Seq<char>, T)>::empty(),
    {
        let list = TaskList::new();
        assert(keys_unique(list.view()));
        TaskRegistry { list }
    }

    /// Registers `token` under `key` and gives back the token it replaces,
    /// which the caller cancels.
    pub fn replace_task(&mut self, key: &str, token: T) -> (r: Option<T>)
        ensures
            keys_unique(final(self).view()),
            final(self).view() == task_insert(old(self).view(), key@, token),
            r == task_lookup(old(self).view(), key@),
    {
        proof {
            use_type_invariant(&*self);
        }
        let mut list = TaskList::new();
        std::mem::swap(&mut list, &mut self.list);
        let r = list.replace_task(key, token);
        self.list = list;
        r
    }

    /// Takes the task under `key` out, giving its token to cancel.
    pub fn cancel_task(&mut self, key: &str) -> (r: Option<T>)
        ensures
            keys_unique(final(self).view()),
            final(self).view() == task_remove(old(self).view(), key@),
            r == task_lookup(old(self).view(), key@),
    {
        proof {
            use_type_invariant(&*self);
        }
        let mut list = TaskList::new();
        std::mem::swap(&mut list, &mut self.list);
        let r = list.cancel_task(key);
        self.list = list;
        r
    }

    /// Takes out every task but the device monitor, giving them back to be
    /// cancelled, in order.
    pub fn cancel_device_tasks(&mut self) -> (r: Vec<(String, T)>)
        ensures
            keys_unique(final(self).view()),
            final(self).view() == old(self).view().filter(monitor_task::<T>()),
            r@.map_values(|p: (String, T)| (p.0@, p.1)) == old(self).view().filter(device_task::<T>()),
    {
        proof {
            use_type_invariant(&*self);
        }
        let mut list = TaskList::new();
        std::mem::swap(&mut list, &mut self.list);
        let r = list.cancel_device_tasks();
        self.list = list;
        r
    }
}

/// Distinct positions of a filtered sequence come from distinct positions.
proof fn lemma_filter_distinct<A>(s: Seq<(Seq<char>, A)>, p: spec_fn((Seq<char>, A)) -> bool, a: int, b: int)
    requires
        keys_unique(s),
        0 <= a < s.filter(p).len(),
        0 <= b < s.filter(p).len(),
        a != b,
    ensures
        s.filter(p)[a].0 != s.filter(p)[b].0,
    decreases s.len(),
{
    reveal(Seq::filter);
    let d = s.drop_last();
    assert(keys_unique(d)) by {
        assert forall|i: int, j: int| 0 <= i < d.len() && 0 <= j < d.len() && i != j implies d[i].0 != d[j].0 by {
            assert(d[i] == s[i] && d[j] == s[j]);
        }
    }
    let fd = d.filter(p);
    if a < fd.len() && b < fd.len() {
        lemma_filter_distinct(d, p, a, b);
    } else {
        lemma_filter_subset(d, p);
        let other = if a < fd.len() { a } else { b };
        assert(d.contains(fd[other]));
        let k = choose|k: int| 0 <= k < d.len() && d[k] == fd[other];
        assert(s[k] == d[k]);
        assert(s[s.len() - 1] == s.last());
    }
}

/// What a read gives back of a write: a task registered under a key is the
/// one found there, and other keys keep theirs.
pub proof fn law_registry_read_after_write<T>(s: Seq<(Seq<char>, T)>, key: Seq<char>, token: T, other: Seq<char>)
    requires
        keys_unique(s),
    ensures
        task_lookup(task_insert(s, key, token), key) == Some(token),
        other != key ==> task_lookup(task_insert(s, key, token), other) == task_lookup(s, other),
{
    let ins = task_insert(s, key, token);
    lemma_first_index_some(s, task_named::<T>(key));
    lemma_first_index_some(s, task_named::<T>(other));
    match first_index(s, task_named::<T>(key)) {
        Some(i) => {
            assert forall|j: int| 0 <= j < i implies !task_named::<T>(key)(#[trigger] ins[j]) by {
                assert(ins[j] == s[j]);
            }
            lemma_first_index_is(ins, task_named::<T>(key), i);
            if other != key {
                match first_index(s, task_named::<T>(other)) {
                    Some(k) => {
                        assert forall|j: int| 0 <= j < k implies !task_named::<T>(other)(#[trigger] ins[j]) by {
                            if j != i {
                                assert(ins[j] == s[j]);
                            }
                        }
                        assert(ins[k] == s[k]);
                        lemma_first_index_is(ins, task_named::<T>(other), k);
                    },
                    None => {
                        assert forall|j: int| 0 <= j < ins.len() implies !task_named::<T>(other)(#[trigger] ins[j]) by {
                            if j != i {
                                assert(ins[j] == s[j]);
                            }
                        }
                        lemma_first_index_none(ins, task_named::<T>(other));
                    },
                }
            }
        },
        None => {
            assert forall|j: int| 0 <= j < s.len() implies !task_named::<T>(key)(#[trigger] ins[j]) by {
                assert(ins[j] == s[j]);
            }
            lemma_first_index_is(ins, task_named::<T>(key), s.len() as int);
            if other != key {
                match first_index(s, task_named::<T>(other)) {
                    Some(k) => {
                        assert forall|j: int| 0 <= j < k implies !task_named::<T>(other)(#[trigger] ins[j]) by {
                            assert(ins[j] == s[j]);
                        }
                        assert(ins[k] == s[k]);
                        lemma_first_index_is(ins, task_named::<T>(other), k);
                    },
                    None => {
                        assert forall|j: int| 0 <= j < ins.len() implies !task_named::<T>(other)(#[trigger] ins[j]) by {
                            if j < s.len() {
                                assert(ins[j] == s[j]);
                            }
                        }
                        lemma_first_index_none(ins, task_named::<T>(other));
                    },
                }
            }
        },
    }
}

/// A cancelled task is gone: nothing is found under its key afterwards.
pub proof fn law_registry_cancel_forgets<T>(s: Seq<(Seq<char>, T)>, key: Seq<char>)
    requires
        keys_unique(s),
    ensures
        task_lookup(task_remove(s, key), key) is None,
{
    let r = task_remove(s, key);
    lemma_first_index_some(s, task_named::<T>(key));
    match first_index(s, task_named::<T>(key)) {
        Some(i) => {
            assert forall|j: int| 0 <= j < r.len() implies !task_named::<T>(key)(#[trigger] r[j]) by {
                if j < i {
                    assert(r[j] == s[j]);
                } else {
                    assert(r[j] == s[j + 1]);
                    assert(s[j + 1].0 != s[i].0);
                }
            }
            lemma_first_index_none(r, task_named::<T>(key));
        },
        None => {},
    }
}

/// Switching devices stops every task but the device monitor, which keeps
/// running.
pub proof fn law_device_switch_keeps_monitor<T>(s: Seq<(Seq<char>, T)>)
    ensures
        forall|i: int| 0 <= i < s.filter(monitor_task::<T>()).len() ==> (#[trigger] s.filter(monitor_task::<T>())[i]).0
            == DEVICE_MONITOR_TASK@,
        forall|i: int| 0 <= i < s.len() && s[i].0 == DEVICE_MONITOR_TASK@ ==> s.filter(monitor_task::<T>()).contains(
            #[trigger] s[i],
        ),
{
    broadcast use vstd::seq_lib::group_filter_ensures;

    lemma_filter_subset(s, monitor_task::<T>());
}

/// The device a command addresses: the one it names, else the selected one.
pub fn selected(override_udid: Option<String>, current: &Option<String>) -> (r: Option<String>)
    ensures
        r.deep_view() == (match override_udid {
            Some(u) => Some(u@),
            None => current.deep_view(),
        }),
{
    match override_udid {
        Some(u) => Some(u),
        None => crate::discovery::clone_opt_string(current),
    }
}

/// Forgetting the selected device ends its session: true when `udid` is the
/// one selected.
pub fn forgets_selection(current: &Option<String>, udid: &str) -> (r: bool)
    ensures
        r == (current.deep_view() == Some(udid@)),
{
    match current {
        Some(c) => str_eq(c.as_str(), udid),
        None => false,
    }
}

} // verus!
