//! The state of the interface and every decision it takes: what a key
//! press does, how a reply of the controller is folded in, and which
//! latency tests are started.  The terminal layer performs the actions that
//! these functions hand back and feeds in the events it receives.

use vstd::prelude::*;
use crate::api::{Config, MihomoController, ProxyEntry};
use crate::text::{same_text, text_of};

verus! {

/// A key press, as far as the interface tells keys apart.
pub enum Key {
    Char(char),
    Tab,
    Up,
    Down,
    Left,
    Right,
    Other,
}

/// A latency test of every node of one group.
pub struct DelayJob {
    pub group_index: usize,
    pub nodes: Vec<String>,
}

/// What a background latency test reports back.
pub enum DelayMessage {
    /// Latency results for a specific proxy group.
    Results { group_index: usize, delays: Vec<Option<u64>> },
    /// All-group refresh completed at this time (milliseconds).
    RefreshDone(u64),
}

/// Outside work that a decision asks for.
pub enum Action {
    /// Select `node` in the group `group`.
    SelectProxy { group: String, node: String },
    /// Switch the routing mode of the controller.
    SwitchMode(String),
    /// Test the latencies of one group.
    TestDelays(DelayJob),
    /// Test the latencies of every group, then report the refresh as done
    /// once every one of these tests has finished.
    RefreshAll(Vec<DelayJob>),
}

/// Interval between two full latency refreshes, in milliseconds.
pub const REFRESH_INTERVAL_MS: u64 = 60000;

pub struct App {
    pub controller: MihomoController,
    pub mode: String,
    pub selected_group: usize,
    pub selected_proxy: usize,
    /// (group_name, [node_names])
    pub proxies: Vec<(String, Vec<String>)>,
    /// Currently active node per group (from Mihomo `now` field).
    pub current_proxies: Vec<String>,
    /// Last group the user explicitly switched a node in.
    pub last_updated_group: Option<usize>,
    /// Per-group, per-node latency in ms. `None` = untested / timed-out.
    pub proxy_delays: Vec<Vec<Option<u64>>>,
    /// When the last full latency refresh completed (milliseconds).
    pub last_delay_test: Option<u64>,
    /// A full latency refresh was started and has not reported completion.
    pub refresh_in_flight: bool,
    /// Whether the Mihomo API is reachable.
    pub api_connected: bool,
    /// Last API error message, shown in the UI.
    pub api_error: Option<String>,
    pub should_quit: bool,
}

/// Whether a `type` names a group whose node can be chosen or tested.
pub open spec fn is_group_kind(kind: Option<String>) -> bool {
    match kind {
        Some(k) => k@ == "Selector"@ || k@ == "URLTest"@ || k@ == "Fallback"@,
        None => false,
    }
}

/// The strings among the members of an `all` array, in order.
pub open spec fn string_members(items: Seq<Option<String>>) -> Seq<Seq<char>>
    decreases items.len(),
{
    if items.len() == 0 {
        seq![]
    } else {
        let rest = string_members(items.drop_last());
        match items.last() {
            Some(s) => rest.push(s@),
            None => rest,
        }
    }
}

/// A group as the interface lists it: name, nodes and active node.
pub type GroupView = (Seq<char>, Seq<Seq<char>>, Seq<char>);

/// The group that an entry of the proxy table becomes, if it is one: a
/// selector, url-test or fallback entry with an `all` array.  A missing
/// `now` reads as the empty name.
pub open spec fn entry_group(e: ProxyEntry) -> Option<GroupView> {
    if is_group_kind(e.kind) {
        match e.all {
            Some(items) => Some(
                (
                    e.name@,
                    string_members(items@),
                    match e.now {
                        Some(n) => n@,
                        None => Seq::<char>::empty(),
                    },
                ),
            ),
            None => None,
        }
    } else {
        None
    }
}

/// The groups of a proxy table, in the order of its entries.
pub open spec fn listed_groups(entries: Seq<ProxyEntry>) -> Seq<GroupView>
    decreases entries.len(),
{
    if entries.len() == 0 {
        seq![]
    } else {
        let rest = listed_groups(entries.drop_last());
        match entry_group(entries.last()) {
            Some(g) => rest.push(g),
            None => rest,
        }
    }
}

/// The active node that the first entry named `name` reports, if that
/// entry has a string `now`.
pub open spec fn reported_now(entries: Seq<ProxyEntry>, name: Seq<char>) -> Option<Seq<char>>
    decreases entries.len(),
{
    if entries.len() == 0 {
        None
    } else if entries[0].name@ == name {
        match entries[0].now {
            Some(n) => Some(n@),
            None => None,
        }
    } else {
        reported_now(entries.drop_first(), name)
    }
}

/// Index after `i` among `n`, wrapping to the first.
pub open spec fn next_index(i: int, n: int) -> int {
    (i + 1) % n
}

/// Stepping forward then back among `n` indices returns to where one was,
/// and so does stepping back then forward.
pub proof fn lemma_next_prev_inverse(i: int, n: int)
    requires
        0 <= i < n,
    ensures
        prev_index(next_index(i, n), n) == i,
        next_index(prev_index(i, n), n) == i,
        0 <= next_index(i, n) < n,
        0 <= prev_index(i, n) < n,
{
    if i + 1 < n {
        vstd::arithmetic::div_mod::lemma_small_mod((i + 1) as nat, n as nat);
    } else {
        vstd::arithmetic::div_mod::lemma_mod_self_0(n);
    }
    if i > 0 {
        vstd::arithmetic::div_mod::lemma_small_mod(i as nat, n as nat);
    } else {
        vstd::arithmetic::div_mod::lemma_mod_self_0(n);
    }
}

/// Index before `i` among `n`, wrapping to the last.
pub open spec fn prev_index(i: int, n: int) -> int {
    if i == 0 {
        n - 1
    } else {
        i - 1
    }
}

impl App {
    /// A full latency refresh is due at `now`: the last one completed more
    /// than a minute earlier.
    pub open spec fn refresh_due_at(self, now: u64) -> bool {
        &&& !self.refresh_in_flight
        &&& self.last_delay_test matches Some(t) && now - t > REFRESH_INTERVAL_MS
    }

    /// The per-group vectors run in parallel: one entry per group in each.
    pub open spec fn wf(self) -> bool {
        &&& self.current_proxies@.len() == self.proxies@.len()
        &&& self.proxy_delays@.len() == self.proxies@.len()
    }

    /// Node names of group `i`.
    pub open spec fn nodes_of(self, i: int) -> Seq<Seq<char>> {
        self.proxies@[i].1@.map_values(|s: String| s@)
    }

    /// Besides `wf`, each group has one latency entry per node.
    pub open spec fn aligned(self) -> bool {
        &&& self.wf()
        &&& forall|i: int|
            0 <= i < self.proxies@.len() ==> #[trigger] self.proxy_delays@[i]@.len()
                == self.node_count(i)
    }

    /// A latency report for a group carries one entry per node of it.
    pub open spec fn fits(self, msg: DelayMessage) -> bool {
        match msg {
            DelayMessage::Results { group_index, delays } => group_index < self.proxies@.len()
                ==> delays@.len() == self.node_count(group_index as int),
            DelayMessage::RefreshDone(_) => true,
        }
    }

    /// Number of nodes of group `i`.
    pub open spec fn node_count(self, i: int) -> int {
        self.proxies@[i].1@.len() as int
    }

    /// The cursor points at a group, and at a node of it or at the start.
    pub open spec fn cursor_valid(self) -> bool {
        self.proxies@.len() > 0 ==> {
            &&& self.selected_group < self.proxies@.len()
            &&& (self.selected_proxy < self.node_count(self.selected_group as int)
                || self.selected_proxy == 0)
        }
    }

    /// `job` tests the nodes of group `i`.
    pub open spec fn is_job_for(self, job: DelayJob, i: int) -> bool {
        &&& job.group_index == i
        &&& job.nodes@ == self.proxies@[i].1@
    }

    /// The key handled would make the cursor arithmetic overflow.
    pub open spec fn key_overflows(self, key: Key) -> bool {
        match key {
            Key::Tab | Key::Down => self.proxies@.len() > 0 && self.selected_group == usize::MAX,
            Key::Right | Key::Char('j') => {
                &&& self.selected_group < self.proxies@.len()
                &&& self.node_count(self.selected_group as int) > 0
                &&& self.selected_proxy == usize::MAX
            },
            _ => false,
        }
    }

    pub fn new(controller: MihomoController) -> (r: Self)
        ensures
            r.controller == controller,
            r.mode@ == "rule"@,
            r.selected_group == 0,
            r.selected_proxy == 0,
            r.proxies@.len() == 0,
            r.current_proxies@.len() == 0,
            r.last_updated_group is None,
            r.proxy_delays@.len() == 0,
            r.last_delay_test is None,
            !r.refresh_in_flight,
            !r.api_connected,
            r.api_error is None,
            !r.should_quit,
            r.wf(),
            r.aligned(),
            r.cursor_valid(),
    {
        App {
            controller,
            mode: String::from_str("rule"),
            selected_group: 0,
            selected_proxy: 0,
            proxies: Vec::new(),
            current_proxies: Vec::new(),
            last_updated_group: None,
            proxy_delays: Vec::new(),
            last_delay_test: None,
            refresh_in_flight: false,
            api_connected: false,
            api_error: None,
            should_quit: false,
        }
    }

    /// The latency test of group `group_index`, if there is such a group.
    pub fn start_delay_test(&self, group_index: usize) -> (r: Option<DelayJob>)
        ensures
            group_index < self.proxies@.len() ==> (r matches Some(job) && self.is_job_for(
                job,
                group_index as int,
            )),
            group_index >= self.proxies@.len() ==> r is None,
    {
        if group_index < self.proxies.len() {
            let nodes = self.proxies[group_index].1.clone();
            assert(nodes@ =~= self.proxies@[group_index as int].1@);
            Some(DelayJob { group_index, nodes })
        } else {
            None
        }
    }

    /// One latency test per group, in the order of the groups.
    pub fn refresh_all_delays(&self) -> (r: Vec<DelayJob>)
        ensures
            r@.len() == self.proxies@.len(),
            forall|i: int| 0 <= i < r@.len() ==> self.is_job_for(#[trigger] r@[i], i),
    {
        let mut jobs: Vec<DelayJob> = Vec::new();
        let mut i: usize = 0;
        while i < self.proxies.len()
            invariant
                i <= self.proxies@.len(),
                jobs@.len() == i,
                forall|k: int| 0 <= k < i ==> self.is_job_for(#[trigger] jobs@[k], k),
            decreases self.proxies@.len() - i,
        {
            let job = self.start_delay_test(i);
            match job {
                Some(job) => jobs.push(job),
                None => {},
            }
            i = i + 1;
        }
        jobs
    }
}

impl App {
    /// What a key press does: the state it leaves and the action it asks for.
    pub open spec fn key_effect(self, key: Key, new: App, action: Option<Action>) -> bool {
        let n = self.proxies@.len() as int;
        let g = self.selected_group as int;
        let p = self.selected_proxy as int;
        match key {
            Key::Char('q') => new == (App { should_quit: true, ..self }) && action is None,
            Key::Char(' ') | Key::Char('s') => if g < n && p < self.node_count(g) {
                &&& new == (App { last_updated_group: Some(self.selected_group), ..self })
                &&& action matches Some(Action::SelectProxy { group, node })
                &&& group@ == self.proxies@[g].0@
                &&& node@ == self.proxies@[g].1@[p]@
            } else {
                new == self && action is None
            },
            Key::Char('r') => new == self && (action matches Some(Action::SwitchMode(m)) && m@ == "rule"@),
            Key::Char('g') => new == self && (action matches Some(Action::SwitchMode(m)) && m@ == "global"@),
            Key::Char('d') => new == self && (action matches Some(Action::SwitchMode(m)) && m@ == "direct"@),
            Key::Tab | Key::Down => if n > 0 {
                &&& new == (App {
                    selected_group: next_index(g, n) as usize,
                    selected_proxy: 0,
                    ..self
                })
                &&& action matches Some(Action::TestDelays(job))
                &&& self.is_job_for(job, next_index(g, n))
            } else {
                new == self && action is None
            },
            Key::Up => if n > 0 && g < n {
                &&& new == (App {
                    selected_group: prev_index(g, n) as usize,
                    selected_proxy: 0,
                    ..self
                })
                &&& action matches Some(Action::TestDelays(job))
                &&& self.is_job_for(job, prev_index(g, n))
            } else {
                new == self && action is None
            },
            Key::Char('f') => {
                &&& new == (App { refresh_in_flight: true, ..self })
                &&& action matches Some(Action::RefreshAll(jobs))
                &&& jobs@.len() == n
                &&& forall|i: int| 0 <= i < n ==> self.is_job_for(#[trigger] jobs@[i], i)
            },
            Key::Char('j') | Key::Right => action is None && if g < n && self.node_count(g) > 0 {
                new == (App {
                    selected_proxy: next_index(p, self.node_count(g)) as usize,
                    ..self
                })
            } else {
                new == self
            },
            Key::Char('k') | Key::Left => action is None && if g < n && self.node_count(g) > 0 {
                new == (App {
                    selected_proxy: prev_index(p, self.node_count(g)) as usize,
                    ..self
                })
            } else {
                new == self
            },
            _ => new == self && action is None,
        }
    }

    /// Handles one key press: `q` quits, `s` (or space) switches to the
    /// highlighted node, `r`/`g`/`d` switch the mode, Tab and Down go to the
    /// next group and Up to the previous one (testing its latencies), `f`
    /// refreshes every latency, `j`/`k` (or Right/Left) move among the nodes.
    /// Every move wraps around.
    pub fn handle_key(&mut self, key: Key) -> (r: Option<Action>)
        requires
            !old(self).key_overflows(key),
        ensures
            old(self).key_effect(key, *final(self), r),
            old(self).wf() ==> final(self).wf(),
            old(self).aligned() ==> final(self).aligned(),
            old(self).cursor_valid() ==> final(self).cursor_valid(),
    {
        match key {
            Key::Char('q') => {
                self.should_quit = true;
                None
            },
            Key::Char(' ') | Key::Char('s') => {
                let g = self.selected_group;
                let p = self.selected_proxy;
                if g < self.proxies.len() && p < self.proxies[g].1.len() {
                    let group = self.proxies[g].0.clone();
                    let node = self.proxies[g].1[p].clone();
                    self.last_updated_group = Some(g);
                    Some(Action::SelectProxy { group, node })
                } else {
                    None
                }
            },
            Key::Char('r') => Some(Action::SwitchMode(String::from_str("rule"))),
            Key::Char('g') => Some(Action::SwitchMode(String::from_str("global"))),
            Key::Char('d') => Some(Action::SwitchMode(String::from_str("direct"))),
            Key::Tab | Key::Down => {
                if self.proxies.len() > 0 {
                    self.selected_group = (self.selected_group + 1) % self.proxies.len();
                    self.selected_proxy = 0;
                    match self.start_delay_test(self.selected_group) {
                        Some(job) => Some(Action::TestDelays(job)),
                        None => None,
                    }
                } else {
                    None
                }
            },
            Key::Up => {
                if self.proxies.len() > 0 && self.selected_group < self.proxies.len() {
                    self.selected_group = if self.selected_group == 0 {
                        self.proxies.len() - 1
                    } else {
                        self.selected_group - 1
                    };
                    self.selected_proxy = 0;
                    match self.start_delay_test(self.selected_group) {
                        Some(job) => Some(Action::TestDelays(job)),
                        None => None,
                    }
                } else {
                    None
                }
            },
            Key::Char('f') => {
                let jobs = self.refresh_all_delays();
                self.refresh_in_flight = true;
                Some(Action::RefreshAll(jobs))
            },
            Key::Char('j') | Key::Right => {
                let g = self.selected_group;
                if g < self.proxies.len() && self.proxies[g].1.len() > 0 {
                    self.selected_proxy = (self.selected_proxy + 1) % self.proxies[g].1.len();
                }
                None
            },
            Key::Char('k') | Key::Left => {
                let g = self.selected_group;
                if g < self.proxies.len() && self.proxies[g].1.len() > 0 {
                    self.selected_proxy = if self.selected_proxy == 0 {
                        self.proxies[g].1.len() - 1
                    } else {
                        self.selected_proxy - 1
                    };
                }
                None
            },
            _ => None,
        }
    }
}

/// Going to the next group and back to the previous one returns to the
/// group one was on (at its first node).
pub proof fn lemma_next_then_previous_group(a: App, b: App, c: App, r1: Option<Action>, r2: Option<Action>)
    requires
        a.selected_group < a.proxies@.len(),
        a.key_effect(Key::Down, b, r1),
        b.key_effect(Key::Up, c, r2),
    ensures
        c == (App { selected_proxy: 0, ..a }),
{
    lemma_next_prev_inverse(a.selected_group as int, a.proxies@.len() as int);
}

/// Moving down and then up among the nodes of a group comes back to the node
/// the cursor was on.
pub proof fn lemma_down_then_up(a: App, b: App, c: App, r1: Option<Action>, r2: Option<Action>)
    requires
        a.selected_group < a.proxies@.len(),
        a.selected_proxy < a.node_count(a.selected_group as int),
        a.key_effect(Key::Char('j'), b, r1),
        b.key_effect(Key::Char('k'), c, r2),
    ensures
        c == a,
{
    let n = a.node_count(a.selected_group as int);
    lemma_next_prev_inverse(a.selected_proxy as int, n);
    assert(a.proxies@[a.selected_group as int].1.len() == n);
}

/// Moving up and then down among the nodes of a group comes back to the node
/// the cursor was on.
pub proof fn lemma_up_then_down(a: App, b: App, c: App, r1: Option<Action>, r2: Option<Action>)
    requires
        a.selected_group < a.proxies@.len(),
        a.selected_proxy < a.node_count(a.selected_group as int),
        a.key_effect(Key::Char('k'), b, r1),
        b.key_effect(Key::Char('j'), c, r2),
    ensures
        c == a,
{
    let n = a.node_count(a.selected_group as int);
    lemma_next_prev_inverse(a.selected_proxy as int, n);
    assert(a.proxies@[a.selected_group as int].1.len() == n);
}

fn is_group_kind_exec(kind: &Option<String>) -> (r: bool)
    ensures
        r == is_group_kind(*kind),
{
    match kind {
        Some(k) => same_text(k, "Selector") || same_text(k, "URLTest") || same_text(k, "Fallback"),
        None => false,
    }
}

/// The string members of an `all` array, in order.
pub fn string_members_of(items: &Vec<Option<String>>) -> (r: Vec<String>)
    ensures
        r@.map_values(|s: String| s@) == string_members(items@),
{
    let mut out: Vec<String> = Vec::new();
    let mut i: usize = 0;
    while i < items.len()
        invariant
            i <= items@.len(),
            out@.map_values(|s: String| s@) == string_members(items@.take(i as int)),
        decreases items@.len() - i,
    {
        let ghost before = out@;
        match &items[i] {
            Some(s) => out.push(s.clone()),
            None => {},
        }
        assert(items@.take(i + 1).drop_last() =~= items@.take(i as int));
        assert(items@.take(i + 1).last() == items@[i as int]);
        assert(out@.map_values(|s: String| s@) =~= string_members(items@.take(i + 1)));
        i = i + 1;
    }
    assert(items@.take(items@.len() as int) =~= items@);
    out
}

/// The active node that the first entry named `name` reports.
pub fn reported_now_of(entries: &Vec<ProxyEntry>, name: &String) -> (r: Option<String>)
    ensures
        match r {
            Some(n) => reported_now(entries@, name@) == Some(n@),
            None => reported_now(entries@, name@) is None,
        },
{
    let mut i: usize = 0;
    assert(entries@.skip(0) =~= entries@);
    while i < entries.len()
        invariant
            i <= entries@.len(),
            reported_now(entries@, name@) == reported_now(entries@.skip(i as int), name@),
        decreases entries@.len() - i,
    {
        assert(entries@.skip(i as int)[0] == entries@[i as int]);
        if entries[i].name == *name {
            return match &entries[i].now {
                Some(n) => Some(n.clone()),
                None => None,
            };
        }
        assert(entries@.skip(i as int).drop_first() =~= entries@.skip(i + 1));
        i = i + 1;
    }
    None
}

impl App {
    /// The groups that the state lists are exactly `groups`, each with its
    /// nodes, its active node, and one untested latency per node.
    pub open spec fn lists_groups(self, groups: Seq<GroupView>) -> bool {
        &&& self.wf()
        &&& self.proxies@.len() == groups.len()
        &&& forall|i: int|
            #![trigger groups[i]]
            0 <= i < groups.len() ==> {
                &&& self.proxies@[i].0@ == groups[i].0
                &&& self.nodes_of(i) == groups[i].1
                &&& self.current_proxies@[i]@ == groups[i].2
                &&& self.proxy_delays@[i]@ == Seq::new(groups[i].1.len(), |j: int| None::<u64>)
            }
    }

    /// `new` differs from `self` at most in the group lists.
    pub open spec fn same_but_groups(self, new: App) -> bool {
        new == (App {
            proxies: new.proxies,
            current_proxies: new.current_proxies,
            proxy_delays: new.proxy_delays,
            ..self
        })
    }

    /// `new` holds the active nodes that `entries` report for the groups of
    /// `self`, and nothing else changed.
    pub open spec fn refreshed_from(self, new: App, entries: Seq<ProxyEntry>) -> bool {
        &&& new == (App { current_proxies: new.current_proxies, ..self })
        &&& new.current_proxies@.len() == self.current_proxies@.len()
        &&& forall|i: int|
            0 <= i < self.current_proxies@.len() ==> #[trigger] new.current_proxies@[i]@ == match reported_now(
                entries,
                self.proxies@[i].0@,
            ) {
                Some(n) => n,
                None => self.current_proxies@[i]@,
            }
    }

    /// Lists the groups of a first proxy table.
    pub fn populate_groups(&mut self, entries: &Vec<ProxyEntry>)
        requires
            old(self).wf(),
            old(self).proxies@.len() == 0,
        ensures
            final(self).lists_groups(listed_groups(entries@)),
            final(self).aligned(),
            old(self).same_but_groups(*final(self)),
    {
        let mut i: usize = 0;
        assert(entries@.take(0) =~= Seq::<ProxyEntry>::empty());
        while i < entries.len()
            invariant
                i <= entries@.len(),
                self.lists_groups(listed_groups(entries@.take(i as int))),
                old(self).same_but_groups(*self),
            decreases entries@.len() - i,
        {
            let e = &entries[i];
            let ghost prior = listed_groups(entries@.take(i as int));
            assert(entries@.take(i + 1).drop_last() =~= entries@.take(i as int));
            assert(entries@.take(i + 1).last() == entries@[i as int]);
            if is_group_kind_exec(&e.kind) {
                match &e.all {
                    Some(items) => {
                        let nodes = string_members_of(items);
                        let current = match &e.now {
                            Some(n) => n.clone(),
                            None => String::new(),
                        };
                        let mut delays: Vec<Option<u64>> = Vec::new();
                        let mut k: usize = 0;
                        while k < nodes.len()
                            invariant
                                k <= nodes@.len(),
                                delays@ == Seq::new(k as nat, |j: int| None::<u64>),
                            decreases nodes@.len() - k,
                        {
                            delays.push(None);
                            k = k + 1;
                            assert(delays@ =~= Seq::new(k as nat, |j: int| None::<u64>));
                        }
                        let ghost g = entry_group(*e).unwrap();
                        let ghost pre = *self;
                        self.proxy_delays.push(delays);
                        self.current_proxies.push(current);
                        self.proxies.push((e.name.clone(), nodes));
                        assert(listed_groups(entries@.take(i + 1)) == prior.push(g));
                        assert(self.nodes_of(prior.len() as int) =~= g.1);
                        assert forall|j: int| 0 <= j < prior.len() implies self.nodes_of(j)
                            == prior[j].1 by {
                            assert(self.proxies@[j] == pre.proxies@[j]);
                            assert(pre.nodes_of(j) == prior[j].1);
                        }
                        assert(self.lists_groups(prior.push(g)));
                    },
                    None => {
                        assert(listed_groups(entries@.take(i + 1)) == prior);
                    },
                }
            } else {
                assert(listed_groups(entries@.take(i + 1)) == prior);
            }
            i = i + 1;
        }
        assert(entries@.take(entries@.len() as int) =~= entries@);
        let ghost groups = listed_groups(entries@);
        assert forall|i: int| 0 <= i < self.proxies@.len() implies #[trigger] self.proxy_delays@[i]@.len()
            == self.node_count(i) by {
            assert(self.nodes_of(i) == groups[i].1);
            assert(self.nodes_of(i).len() == self.node_count(i));
        }
    }

    /// Takes the active node of each group from a later proxy table.
    pub fn refresh_current(&mut self, entries: &Vec<ProxyEntry>)
        requires
            old(self).wf(),
        ensures
            old(self).refreshed_from(*final(self), entries@),
            final(self).wf(),
            old(self).aligned() ==> final(self).aligned(),
    {
        let mut i: usize = 0;
        while i < self.proxies.len()
            invariant
                self.wf(),
                i <= self.proxies@.len(),
                self.proxies == old(self).proxies,
                *self == (App { current_proxies: self.current_proxies, ..*old(self) }),
                self.current_proxies@.len() == old(self).current_proxies@.len(),
                forall|k: int|
                    0 <= k < self.current_proxies@.len() ==> #[trigger] self.current_proxies@[k]@
                        == if k < i {
                        match reported_now(entries@, old(self).proxies@[k].0@) {
                            Some(n) => n,
                            None => old(self).current_proxies@[k]@,
                        }
                    } else {
                        old(self).current_proxies@[k]@
                    },
            decreases self.proxies@.len() - i,
        {
            let found = reported_now_of(entries, &self.proxies[i].0);
            match found {
                Some(n) => {
                    if i < self.current_proxies.len() {
                        self.current_proxies.set(i, n);
                    }
                },
                None => {},
            }
            i = i + 1;
        }
    }
}

impl App {
    /// Folds in the controller's configuration.  Returns whether the
    /// controller answered; when it did not, the rest of the tick is skipped
    /// (the caller drops the pending latency results).
    pub fn apply_config(&mut self, result: Result<Config, String>) -> (r: bool)
        ensures
            old(self).aligned() ==> final(self).aligned(),
            match result {
                Ok(config) => r && *final(self) == (App {
                    mode: config.mode,
                    api_connected: true,
                    api_error: None,
                    ..*old(self)
                }),
                Err(e) => !r && *final(self) == (App {
                    api_connected: false,
                    api_error: Some(e),
                    ..*old(self)
                }),
            },
    {
        match result {
            Ok(config) => {
                self.mode = config.mode;
                self.api_connected = true;
                self.api_error = None;
                true
            },
            Err(e) => {
                self.api_connected = false;
                self.api_error = Some(e);
                false
            },
        }
    }

    /// Folds in the controller's proxy table, fetched at time `now`.  The
    /// first table that arrives fills the group list (and the latency test of
    /// the selected group is returned, to be started); later ones only update
    /// the active node of each group.  A failure is kept as the error shown.
    pub fn apply_proxies(&mut self, result: Result<Vec<ProxyEntry>, String>, now: u64) -> (r: Option<DelayJob>)
        requires
            old(self).wf(),
        ensures
            final(self).wf(),
            old(self).aligned() ==> final(self).aligned(),
            match result {
                Ok(entries) => if old(self).proxies@.len() == 0 {
                    let groups = listed_groups(entries@);
                    &&& final(self).lists_groups(groups)
                    &&& if groups.len() > 0 {
                        &&& (App { last_delay_test: old(self).last_delay_test, ..*final(self) })
                            == (App {
                            proxies: final(self).proxies,
                            current_proxies: final(self).current_proxies,
                            proxy_delays: final(self).proxy_delays,
                            ..*old(self)
                        })
                        &&& final(self).last_delay_test == Some(now)
                        &&& if old(self).selected_group < groups.len() {
                            r matches Some(job) && final(self).is_job_for(
                                job,
                                old(self).selected_group as int,
                            )
                        } else {
                            r is None
                        }
                    } else {
                        old(self).same_but_groups(*final(self)) && r is None
                    }
                } else {
                    old(self).refreshed_from(*final(self), entries@) && r is None
                },
                Err(e) => *final(self) == (App { api_error: Some(e), ..*old(self) }) && r is None,
            },
    {
        match result {
            Ok(entries) => {
                if self.proxies.len() == 0 {
                    self.populate_groups(&entries);
                    if self.proxies.len() > 0 {
                        let job = self.start_delay_test(self.selected_group);
                        self.last_delay_test = Some(now);
                        job
                    } else {
                        None
                    }
                } else {
                    self.refresh_current(&entries);
                    None
                }
            },
            Err(e) => {
                self.api_error = Some(e);
                None
            },
        }
    }

    /// Whether the periodic full latency refresh is due at time `now`: none
    /// is in flight and the last one completed more than a minute before.
    pub fn refresh_due(&self, now: u64) -> (r: bool)
        ensures
            r == self.refresh_due_at(now),
    {
        if self.refresh_in_flight {
            return false;
        }
        match self.last_delay_test {
            Some(t) => now > t && now - t > REFRESH_INTERVAL_MS,
            None => false,
        }
    }

    /// What starting the periodic refresh at `now` does: when it is due, it
    /// is marked in flight and every group's test is returned; else nothing.
    pub open spec fn begin_refresh_effect(self, now: u64, new: App, r: Option<Vec<DelayJob>>) -> bool {
        if self.refresh_due_at(now) {
            &&& new == (App { refresh_in_flight: true, ..self })
            &&& r matches Some(jobs)
            &&& jobs@.len() == self.proxies@.len()
            &&& forall|i: int| 0 <= i < jobs@.len() ==> self.is_job_for(#[trigger] jobs@[i], i)
        } else {
            new == self && r is None
        }
    }

    /// Starts the periodic full latency refresh when it is due at `now`.
    pub fn begin_refresh(&mut self, now: u64) -> (r: Option<Vec<DelayJob>>)
        ensures
            old(self).begin_refresh_effect(now, *final(self), r),
            old(self).wf() ==> final(self).wf(),
            old(self).aligned() ==> final(self).aligned(),
    {
        if self.refresh_due(now) {
            let jobs = self.refresh_all_delays();
            self.refresh_in_flight = true;
            Some(jobs)
        } else {
            None
        }
    }

    /// The key handled would make the cursor arithmetic overflow (see
    /// [`App::key_overflows`]).
    pub fn would_overflow(&self, key: &Key) -> (r: bool)
        ensures
            r == self.key_overflows(*key),
    {
        match key {
            Key::Tab | Key::Down => self.proxies.len() > 0 && self.selected_group == usize::MAX,
            Key::Right | Key::Char('j') => {
                self.selected_group < self.proxies.len() && self.proxies[self.selected_group].1.len()
                    > 0 && self.selected_proxy == usize::MAX
            },
            _ => false,
        }
    }

    /// Folds in what a background latency test reported.
    pub fn apply_delay_message(&mut self, msg: DelayMessage)
        requires
            old(self).wf(),
        ensures
            final(self).wf(),
            old(self).aligned() && old(self).fits(msg) ==> final(self).aligned(),
            match msg {
                DelayMessage::Results { group_index, delays } => if group_index
                    < old(self).proxy_delays@.len() {
                    &&& final(self).proxy_delays@ == old(self).proxy_delays@.update(
                        group_index as int,
                        delays,
                    )
                    &&& *final(self) == (App { proxy_delays: final(self).proxy_delays, ..*old(self) })
                } else {
                    *final(self) == *old(self)
                },
                DelayMessage::RefreshDone(t) => *final(self) == (App {
                    last_delay_test: Some(t),
                    refresh_in_flight: false,
                    ..*old(self)
                }),
            },
    {
        match msg {
            DelayMessage::Results { group_index, delays } => {
                if group_index < self.proxy_delays.len() {
                    self.proxy_delays.set(group_index, delays);
                }
            },
            DelayMessage::RefreshDone(t) => {
                self.last_delay_test = Some(t);
                self.refresh_in_flight = false;
            },
        }
    }

    /// Brings the cursor back in range after the group list changed: to the
    /// first group when the selected one is gone, and to the first node when
    /// the selected node is gone.
    pub fn clamp_cursor(&mut self)
        ensures
            ({
                let n = old(self).proxies@.len();
                let reset = n > 0 && old(self).selected_group >= n;
                let g = if reset { 0 } else { old(self).selected_group };
                let p = if reset { 0 } else { old(self).selected_proxy };
                let q = if g < n && p >= old(self).node_count(g as int) { 0 } else { p };
                *final(self) == (App { selected_group: g, selected_proxy: q, ..*old(self) })
            }),
            final(self).cursor_valid(),
            old(self).aligned() ==> final(self).aligned(),
    {
        if self.proxies.len() > 0 && self.selected_group >= self.proxies.len() {
            self.selected_group = 0;
            self.selected_proxy = 0;
        }
        if self.selected_group < self.proxies.len() {
            if self.selected_proxy >= self.proxies[self.selected_group].1.len() {
                self.selected_proxy = 0;
            }
        }
    }
}

proof fn lemma_tab_steps(states: Seq<App>, actions: Seq<Option<Action>>, k: int)
    requires
        states.len() > 0,
        states[0].proxies@.len() > 0,
        states[0].selected_group < states[0].proxies@.len(),
        actions.len() == states.len() - 1,
        0 <= k < states.len(),
        forall|j: int|
            0 <= j < states.len() - 1 ==> #[trigger] states[j].key_effect(
                Key::Tab,
                states[j + 1],
                actions[j],
            ),
    ensures
        states[k].proxies == states[0].proxies,
        states[k].selected_group == (states[0].selected_group + k) % (states[0].proxies@.len() as int),
    decreases k,
{
    let n = states[0].proxies@.len() as int;
    let g0 = states[0].selected_group as int;
    if k == 0 {
        vstd::arithmetic::div_mod::lemma_small_mod(g0 as nat, n as nat);
    } else {
        lemma_tab_steps(states, actions, k - 1);
        let j = k - 1;
        assert(states[j].key_effect(Key::Tab, states[j + 1], actions[j]));
        let prev = states[j].selected_group as int;
        vstd::arithmetic::div_mod::lemma_add_mod_noop(g0 + k - 1, 1, n);
        if n > 1 {
            vstd::arithmetic::div_mod::lemma_small_mod(1, n as nat);
        }
        assert(0 <= prev < n) by {
            vstd::arithmetic::div_mod::lemma_mod_bound(g0 + k - 1, n);
        }
        assert(next_index(prev, n) == (g0 + k) % n) by {
            if n == 1 {
                vstd::arithmetic::div_mod::lemma_mod_self_0(1);
                assert((g0 + k) % 1 == 0);
                assert((prev + 1) % 1 == 0);
            }
        }
        vstd::arithmetic::div_mod::lemma_mod_bound(g0 + k, n);
    }
}

/// Pressing Tab once per group brings the cursor back to the group it
/// started on, with the group list untouched.
pub proof fn lemma_tab_cycle(states: Seq<App>, actions: Seq<Option<Action>>)
    requires
        states.len() > 0,
        states[0].proxies@.len() > 0,
        states.len() == states[0].proxies@.len() + 1,
        actions.len() == states.len() - 1,
        states[0].selected_group < states[0].proxies@.len(),
        forall|j: int|
            0 <= j < states.len() - 1 ==> #[trigger] states[j].key_effect(
                Key::Tab,
                states[j + 1],
                actions[j],
            ),
    ensures
        states.last().selected_group == states[0].selected_group,
        states.last().proxies == states[0].proxies,
{
    let n = states[0].proxies@.len() as int;
    lemma_tab_steps(states, actions, n);
    vstd::arithmetic::div_mod::lemma_mod_add_multiples_vanish(states[0].selected_group as int, n);
    vstd::arithmetic::div_mod::lemma_small_mod(states[0].selected_group as nat, n as nat);
}

/// Once a full refresh is reported completed at `t`, no other one is due
/// until a minute has passed.
pub proof fn lemma_refresh_not_due_within_interval(a: App, b: App, t: u64, now: u64)
    requires
        b == (App { last_delay_test: Some(t), refresh_in_flight: false, ..a }),
        now <= t + REFRESH_INTERVAL_MS,
    ensures
        !b.refresh_due_at(now),
{
}

/// The report of a latency test of `job`: one entry per node, the latency
/// that each node's test gave, or `None` where the test did not finish.
pub fn delay_results(job: &DelayJob, outcomes: &Vec<Option<Option<u64>>>) -> (r: DelayMessage)
    ensures
        r matches DelayMessage::Results { group_index, delays } && {
            &&& group_index == job.group_index
            &&& delays@.len() == job.nodes@.len()
            &&& forall|i: int|
                0 <= i < delays@.len() ==> #[trigger] delays@[i] == (if i < outcomes@.len() {
                    match outcomes@[i] {
                        Some(d) => d,
                        None => None,
                    }
                } else {
                    None
                })
        },
{
    let mut delays: Vec<Option<u64>> = Vec::new();
    let mut i: usize = 0;
    while i < job.nodes.len()
        invariant
            i <= job.nodes@.len(),
            delays@.len() == i,
            forall|k: int|
                0 <= k < i ==> #[trigger] delays@[k] == (if k < outcomes@.len() {
                    match outcomes@[k] {
                        Some(d) => d,
                        None => None,
                    }
                } else {
                    None
                }),
        decreases job.nodes@.len() - i,
    {
        let d = if i < outcomes.len() {
            match outcomes[i] {
                Some(d) => d,
                None => None,
            }
        } else {
            None
        };
        delays.push(d);
        i = i + 1;
    }
    DelayMessage::Results { group_index: job.group_index, delays }
}

/// The report of a latency test of a group's nodes fits that group, so
/// folding it in keeps one latency entry per node.
pub proof fn lemma_job_report_fits(app: App, job: DelayJob, msg: DelayMessage)
    requires
        app.is_job_for(job, job.group_index as int),
        msg matches DelayMessage::Results { group_index, delays } && group_index == job.group_index
            && delays@.len() == job.nodes@.len(),
    ensures
        app.fits(msg),
{
}

/// Interval of the interface's tick, in nanoseconds.
pub const TICK_NANOS: u64 = 250000000;

/// How long to wait for a key when `elapsed` nanoseconds of the tick have
/// passed: the rest of the tick, or nothing once it is over.
pub fn poll_timeout(elapsed: u64) -> (r: u64)
    ensures
        r == (if elapsed < TICK_NANOS { TICK_NANOS - elapsed } else { 0 }),
{
    if elapsed < TICK_NANOS {
        TICK_NANOS - elapsed
    } else {
        0
    }
}

/// Whether the tick is over after `elapsed` nanoseconds, so the state is
/// refreshed from the controller.
pub fn tick_due(elapsed: u64) -> (r: bool)
    ensures
        r == (elapsed >= TICK_NANOS),
{
    elapsed >= TICK_NANOS
}

/// While a full refresh is in flight, no periodic refresh is due.
pub proof fn lemma_no_refresh_while_in_flight(a: App, now: u64)
    requires
        a.refresh_in_flight,
    ensures
        !a.refresh_due_at(now),
{
}

/// The periodic refresh starts at most once until the one started reports
/// completion: a second start finds nothing due.
pub proof fn lemma_refresh_starts_once(
    a: App,
    b: App,
    c: App,
    r1: Option<Vec<DelayJob>>,
    r2: Option<Vec<DelayJob>>,
    now1: u64,
    now2: u64,
)
    requires
        a.begin_refresh_effect(now1, b, r1),
        r1 is Some,
        b.begin_refresh_effect(now2, c, r2),
    ensures
        r2 is None,
        c == b,
{
}

proof fn lemma_reported_now_at(entries: Seq<ProxyEntry>, name: Seq<char>, j: int)
    requires
        0 <= j < entries.len(),
        entries[j].name@ == name,
        forall|k: int| 0 <= k < j ==> entries[k].name@ != name,
    ensures
        reported_now(entries, name) == text_of(entries[j].now),
    decreases j,
{
    if j > 0 {
        assert(entries[0].name@ != name);
        lemma_reported_now_at(entries.drop_first(), name, j - 1);
    }
}

proof fn lemma_reported_now_absent(entries: Seq<ProxyEntry>, name: Seq<char>)
    requires
        forall|k: int| 0 <= k < entries.len() ==> entries[k].name@ != name,
    ensures
        reported_now(entries, name) is None,
    decreases entries.len(),
{
    if entries.len() > 0 {
        assert(entries[0].name@ != name);
        lemma_reported_now_absent(entries.drop_first(), name);
    }
}

/// Folding in a later proxy table gives every group, whatever its place,
/// the active node that the table's first entry of that name reports, and
/// keeps the group's active node when that entry reports none.
pub proof fn lemma_refresh_takes_reported_node(a: App, b: App, entries: Seq<ProxyEntry>, i: int, j: int)
    requires
        a.wf(),
        a.refreshed_from(b, entries),
        0 <= i < a.proxies@.len(),
        0 <= j < entries.len(),
        entries[j].name@ == a.proxies@[i].0@,
        forall|k: int| 0 <= k < j ==> entries[k].name@ != a.proxies@[i].0@,
    ensures
        b.proxies == a.proxies,
        match entries[j].now {
            Some(n) => b.current_proxies@[i]@ == n@,
            None => b.current_proxies@[i]@ == a.current_proxies@[i]@,
        },
{
    lemma_reported_now_at(entries, a.proxies@[i].0@, j);
    assert(b.current_proxies@[i]@ == match reported_now(entries, a.proxies@[i].0@) {
        Some(n) => n,
        None => a.current_proxies@[i]@,
    });
}

/// A group that a later proxy table does not list keeps its active node.
pub proof fn lemma_refresh_keeps_unlisted_group(a: App, b: App, entries: Seq<ProxyEntry>, i: int)
    requires
        a.wf(),
        a.refreshed_from(b, entries),
        0 <= i < a.proxies@.len(),
        forall|k: int| 0 <= k < entries.len() ==> entries[k].name@ != a.proxies@[i].0@,
    ensures
        b.current_proxies@[i]@ == a.current_proxies@[i]@,
{
    lemma_reported_now_absent(entries, a.proxies@[i].0@);
    assert(b.current_proxies@[i]@ == match reported_now(entries, a.proxies@[i].0@) {
        Some(n) => n,
        None => a.current_proxies@[i]@,
    });
}

/// Once a minute has passed since the last full refresh completed, and
/// none is in flight, a refresh is due, and starting it tests every group.
pub proof fn lemma_refresh_due_after_interval(
    a: App,
    b: App,
    r: Option<Vec<DelayJob>>,
    t: u64,
    now: u64,
)
    requires
        !a.refresh_in_flight,
        a.last_delay_test == Some(t),
        now > t + REFRESH_INTERVAL_MS,
        a.begin_refresh_effect(now, b, r),
    ensures
        a.refresh_due_at(now),
        b.refresh_in_flight,
        r matches Some(jobs) && jobs@.len() == a.proxies@.len(),
{
}

/// No full refresh is due before the last one completed, when the clock has
/// not yet reached it, nor while none has completed yet.
pub proof fn lemma_refresh_not_due_without_interval(a: App, now: u64)
    requires
        match a.last_delay_test {
            Some(t) => now <= t + REFRESH_INTERVAL_MS,
            None => true,
        },
    ensures
        !a.refresh_due_at(now),
{
}

/// The string members of two runs of elements, one after the other, are
/// those of the first run followed by those of the second.
pub proof fn lemma_string_members_concat(a: Seq<Option<String>>, b: Seq<Option<String>>)
    ensures
        string_members(a + b) == string_members(a) + string_members(b),
    decreases b.len(),
{
    if b.len() == 0 {
        assert(a + b =~= a);
        assert(string_members(a) + string_members(b) =~= string_members(a));
    } else {
        lemma_string_members_concat(a, b.drop_last());
        assert((a + b).drop_last() =~= a + b.drop_last());
        assert((a + b).last() == b.last());
        match b.last() {
            Some(s) => assert(string_members(a) + string_members(b.drop_last()).push(s@)
                =~= (string_members(a) + string_members(b.drop_last())).push(s@)),
            None => {},
        }
    }
}

/// One element of `all` yields its text when it is a string, else nothing.
pub proof fn lemma_string_members_one(o: Option<String>)
    ensures
        string_members(seq![o]) == match o {
            Some(s) => seq![s@],
            None => Seq::<Seq<char>>::empty(),
        },
{
    assert(seq![o].drop_last() =~= Seq::<Option<String>>::empty());
    assert(seq![o].last() == o);
    assert(string_members(Seq::<Option<String>>::empty()) == Seq::<Seq<char>>::empty());
    assert(string_members(seq![o]) == match o {
        Some(s) => string_members(Seq::<Option<String>>::empty()).push(s@),
        None => string_members(Seq::<Option<String>>::empty()),
    });
    match o {
        Some(s) => assert(Seq::<Seq<char>>::empty().push(s@) =~= seq![s@]),
        None => {},
    }
}

/// The groups listed from two runs of entries, one after the other, are
/// those of the first run followed by those of the second.
pub proof fn lemma_listed_groups_concat(a: Seq<ProxyEntry>, b: Seq<ProxyEntry>)
    ensures
        listed_groups(a + b) == listed_groups(a) + listed_groups(b),
    decreases b.len(),
{
    if b.len() == 0 {
        assert(a + b =~= a);
        assert(listed_groups(a) + listed_groups(b) =~= listed_groups(a));
    } else {
        lemma_listed_groups_concat(a, b.drop_last());
        assert((a + b).drop_last() =~= a + b.drop_last());
        assert((a + b).last() == b.last());
        match entry_group(b.last()) {
            Some(g) => assert(listed_groups(a) + listed_groups(b.drop_last()).push(g) =~= (
            listed_groups(a) + listed_groups(b.drop_last())).push(g)),
            None => {},
        }
    }
}

/// One entry is listed as a group exactly when its type is Selector,
/// URLTest or Fallback and it has an `all` array; the group then has the
/// entry's name, the string members of `all` as nodes, and the entry's
/// `now` (the empty name when it has none) as active node.
pub proof fn lemma_listed_groups_one(e: ProxyEntry)
    ensures
        listed_groups(seq![e]) == if (e.kind matches Some(k) && (k@ == "Selector"@ || k@
            == "URLTest"@ || k@ == "Fallback"@)) && e.all is Some {
            seq![
                (
                    e.name@,
                    string_members(e.all.unwrap()@),
                    match e.now {
                        Some(n) => n@,
                        None => Seq::<char>::empty(),
                    },
                ),
            ]
        } else {
            Seq::<GroupView>::empty()
        },
{
    assert(seq![e].drop_last() =~= Seq::<ProxyEntry>::empty());
    assert(seq![e].last() == e);
    assert(listed_groups(Seq::<ProxyEntry>::empty()) == Seq::<GroupView>::empty());
    assert(listed_groups(seq![e]) == match entry_group(e) {
        Some(g) => listed_groups(Seq::<ProxyEntry>::empty()).push(g),
        None => listed_groups(Seq::<ProxyEntry>::empty()),
    });
    match entry_group(e) {
        Some(g) => assert(Seq::<GroupView>::empty().push(g) =~= seq![g]),
        None => {},
    }
}

/// No key press changes the group list, the active nodes, the latencies,
/// the mode or the connection state, and only `q` quits.
pub proof fn lemma_keys_keep_groups(a: App, key: Key, b: App, action: Option<Action>)
    requires
        a.key_effect(key, b, action),
    ensures
        b.proxies == a.proxies,
        b.current_proxies == a.current_proxies,
        b.proxy_delays == a.proxy_delays,
        b.mode == a.mode,
        b.api_connected == a.api_connected,
        b.api_error == a.api_error,
        b.last_delay_test == a.last_delay_test,
        b.should_quit == (a.should_quit || key == Key::Char('q')),
{
}

} // verus!
