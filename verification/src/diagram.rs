//! Pictures of things that are not in any one file.
//!
//! A group may point at a diagram the way it points at a file, and the
//! diagram gets a pane. The vocabulary is nodes, edges, and where things sit:
//! decoration is not expressible, and everything visual comes from the
//! palette, so every diagram belongs to the same deck.
//!
//! This module places nodes on a grid of columns and rows. It does not know
//! what a pixel is; the view takes these cells and does the geometry.
//!
//! Placement is stated, not only computed: [`Diagram::layout`] promises that
//! the edges it sets aside are exactly the ones running against some order of
//! the nodes, that every other arrow runs with the flow and each node sits one
//! past the furthest thing pointing at it, and that nodes sharing a rank take
//! the first free track in declaration order unless a lane pins them.

use vstd::prelude::*;

use crate::text::{is_word, text_eq};
use crate::theme::Rgb;

verus! {

/// Which way the story runs.
#[derive(Debug, Clone, Copy, PartialEq, Eq, Structural)]
pub enum Direction {
    /// Later things sit below earlier ones. The default.
    Down,
    /// Later things sit to the right. Suits a pipeline.
    Right,
}

/// How much a node wants to be looked at.
#[derive(Debug, Clone, Copy, PartialEq, Eq, Structural)]
pub enum Weight {
    /// An ordinary node. The default.
    Normal,
    /// The one the group is actually about.
    Accent,
    /// Present for context; not the point.
    Muted,
}

/// What kind of thing a node is, which decides its shape.
#[derive(Debug, Clone, Copy, PartialEq, Eq, Structural)]
pub enum Role {
    /// Something that happens, or something that is. Drawn as a box. The
    /// default.
    Step,
    /// A branch. Drawn as a diamond.
    Decision,
    /// Something written down and read back. Drawn as a cylinder.
    Store,
    /// Where the story starts or stops. Drawn as a pill.
    Terminal,
    /// A person, or a system outside the picture. Drawn as a circle.
    Actor,
}

/// What an edge is claiming.
#[derive(Debug, Clone, Copy, PartialEq, Eq, Structural)]
pub enum Line {
    /// A real dependency, call, or step. The default.
    Solid,
    /// Conditional, optional, or "only sometimes".
    Dashed,
}

impl Default for Direction {
    fn default() -> (d: Self)
        ensures
            d == Direction::Down,
    {
        Direction::Down
    }
}

impl Default for Weight {
    fn default() -> (w: Self)
        ensures
            w == Weight::Normal,
    {
        Weight::Normal
    }
}

impl Default for Role {
    fn default() -> (r: Self)
        ensures
            r == Role::Step,
    {
        Role::Step
    }
}

impl Default for Line {
    fn default() -> (l: Self)
        ensures
            l == Line::Solid,
    {
        Line::Solid
    }
}

/// The direction a wire name reads as: anything unknown is the default.
pub open spec fn direction_named(name: Seq<char>) -> Direction {
    if name == seq!['r', 'i', 'g', 'h', 't'] {
        Direction::Right
    } else {
        Direction::Down
    }
}

/// The weight a wire name reads as: anything unknown is the default.
pub open spec fn weight_named(name: Seq<char>) -> Weight {
    if name == seq!['a', 'c', 'c', 'e', 'n', 't'] {
        Weight::Accent
    } else if name == seq!['m', 'u', 't', 'e', 'd'] {
        Weight::Muted
    } else {
        Weight::Normal
    }
}

/// The role a wire name reads as: anything unknown is the default.
pub open spec fn role_named(name: Seq<char>) -> Role {
    if name == seq!['d', 'e', 'c', 'i', 's', 'i', 'o', 'n'] {
        Role::Decision
    } else if name == seq!['s', 't', 'o', 'r', 'e'] {
        Role::Store
    } else if name == seq!['t', 'e', 'r', 'm', 'i', 'n', 'a', 'l'] {
        Role::Terminal
    } else if name == seq!['a', 'c', 't', 'o', 'r'] {
        Role::Actor
    } else {
        Role::Step
    }
}

/// The line a wire name reads as: anything unknown is the default.
pub open spec fn line_named(name: Seq<char>) -> Line {
    if name == seq!['d', 'a', 's', 'h', 'e', 'd'] {
        Line::Dashed
    } else {
        Line::Solid
    }
}

/// Read from the wire, forgivingly: a name this version does not know reads
/// as the default rather than failing the whole group.
impl From<String> for Direction {
    fn from(name: String) -> (d: Self) {
        if is_word(name.as_str(), &['r', 'i', 'g', 'h', 't']) {
            Direction::Right
        } else {
            Direction::Down
        }
    }
}

impl vstd::std_specs::convert::FromSpecImpl<String> for Direction {
    open spec fn obeys_from_spec() -> bool {
        true
    }

    open spec fn from_spec(name: String) -> Self {
        direction_named(name@)
    }
}

/// Read from the wire, forgivingly.
impl From<String> for Weight {
    fn from(name: String) -> (w: Self) {
        let s = name.as_str();
        if is_word(s, &['a', 'c', 'c', 'e', 'n', 't']) {
            Weight::Accent
        } else if is_word(s, &['m', 'u', 't', 'e', 'd']) {
            Weight::Muted
        } else {
            Weight::Normal
        }
    }
}

impl vstd::std_specs::convert::FromSpecImpl<String> for Weight {
    open spec fn obeys_from_spec() -> bool {
        true
    }

    open spec fn from_spec(name: String) -> Self {
        weight_named(name@)
    }
}

/// Read from the wire, forgivingly.
impl From<String> for Role {
    fn from(name: String) -> (r: Self) {
        let s = name.as_str();
        if is_word(s, &['d', 'e', 'c', 'i', 's', 'i', 'o', 'n']) {
            Role::Decision
        } else if is_word(s, &['s', 't', 'o', 'r', 'e']) {
            Role::Store
        } else if is_word(s, &['t', 'e', 'r', 'm', 'i', 'n', 'a', 'l']) {
            Role::Terminal
        } else if is_word(s, &['a', 'c', 't', 'o', 'r']) {
            Role::Actor
        } else {
            Role::Step
        }
    }
}

impl vstd::std_specs::convert::FromSpecImpl<String> for Role {
    open spec fn obeys_from_spec() -> bool {
        true
    }

    open spec fn from_spec(name: String) -> Self {
        role_named(name@)
    }
}

/// Read from the wire, forgivingly.
impl From<String> for Line {
    fn from(name: String) -> (l: Self) {
        if is_word(name.as_str(), &['d', 'a', 's', 'h', 'e', 'd']) {
            Line::Dashed
        } else {
            Line::Solid
        }
    }
}

impl vstd::std_specs::convert::FromSpecImpl<String> for Line {
    open spec fn obeys_from_spec() -> bool {
        true
    }

    open spec fn from_spec(name: String) -> Self {
        line_named(name@)
    }
}

/// One box.
#[derive(Debug, Clone)]
pub struct Node {
    /// Referred to by edges and clusters.
    pub id: String,
    /// The name in the box. Short — a type, a crate, a step.
    pub label: String,
    /// A second line, smaller. Where the "why" goes.
    pub note: Option<String>,
    /// What kind of thing it is, which decides its shape.
    pub role: Role,
    /// How much to emphasise it.
    pub weight: Weight,
    /// Pin the node to a fixed track across the flow. A lane holds one still,
    /// which is what makes a sequence diagram a sequence diagram.
    pub lane: Option<u32>,
}

/// One arrow.
#[derive(Debug, Clone)]
pub struct Edge {
    /// The node it leaves, by id.
    pub from: String,
    /// The node it enters, by id.
    pub to: String,
    /// What the arrow means.
    pub label: Option<String>,
    /// How to draw it.
    pub line: Line,
}

/// A box drawn around several nodes: containment, not layout.
#[derive(Debug, Clone)]
pub struct Cluster {
    /// The name on the surrounding box.
    pub label: String,
    /// Which nodes it holds, by id.
    pub nodes: Vec<String>,
}

/// A path through the picture, walked one node at a time.
#[derive(Debug, Clone)]
pub struct Flow {
    /// What this path is called. Shown on the button that plays it.
    pub name: String,
    /// The nodes it touches, in order. Ids that name no node are skipped.
    pub steps: Vec<Step>,
    /// The colour this path is lit in; the deck's accent when left out.
    pub color: Option<Rgb>,
}

/// One stop on a path: a plain id, or an id with a colour of its own.
#[derive(Debug, Clone)]
pub enum Step {
    /// Just the node.
    Node(String),
    /// The node, and how to light it.
    Lit {
        /// Which node.
        node: String,
        /// The colour for this step alone, over the flow's own.
        color: Option<Rgb>,
    },
}

impl Step {
    /// Which node this step names.
    pub open spec fn spec_node(self) -> Seq<char> {
        match self {
            Step::Node(id) => id@,
            Step::Lit { node, .. } => node@,
        }
    }

    /// Which node this step is.
    pub fn node(&self) -> (id: &str)
        ensures
            id@ == self.spec_node(),
    {
        match self {
            Step::Node(id) => id.as_str(),
            Step::Lit { node, .. } => node.as_str(),
        }
    }

    /// The colour asked for, if this step asked for one.
    pub fn color(&self) -> (c: Option<Rgb>)
        ensures
            c == match self {
                Step::Node(_) => None,
                Step::Lit { color, .. } => *color,
            },
    {
        match self {
            Step::Node(_) => None,
            Step::Lit { color, .. } => *color,
        }
    }
}

/// A picture of how some things relate.
#[derive(Debug, Clone)]
pub struct Diagram {
    /// A caption, shown where a code pane shows `file:range`.
    pub title: Option<String>,
    /// Which way the story runs.
    pub flow: Direction,
    /// The boxes, in the order they should be packed across the flow.
    pub nodes: Vec<Node>,
    /// The arrows.
    pub edges: Vec<Edge>,
    /// Boxes drawn around groups of nodes.
    pub clusters: Vec<Cluster>,
    /// Paths through the picture that a reader can play.
    pub flows: Vec<Flow>,
}

/// The position of the node called `id`: the last one declared with that
/// id, as a later declaration replaces an earlier one.
pub open spec fn last_named(nodes: Seq<Node>, id: Seq<char>) -> Option<int>
    decreases nodes.len(),
{
    if nodes.len() == 0 {
        None
    } else if nodes.last().id@ == id {
        Some(nodes.len() - 1)
    } else {
        last_named(nodes.drop_last(), id)
    }
}

/// Whether some node is called `id`.
pub open spec fn names(nodes: Seq<Node>, id: Seq<char>) -> bool {
    exists|i: int| 0 <= i < nodes.len() && #[trigger] nodes[i].id@ == id
}

/// The steps of a path that name a node that exists, in order.
pub open spec fn walked(steps: Seq<Step>, nodes: Seq<Node>) -> Seq<Step>
    decreases steps.len(),
{
    if steps.len() == 0 {
        Seq::empty()
    } else if names(nodes, steps.last().spec_node()) {
        walked(steps.drop_last(), nodes).push(steps.last())
    } else {
        walked(steps.drop_last(), nodes)
    }
}

proof fn lemma_last_named(nodes: Seq<Node>, id: Seq<char>)
    ensures
        match last_named(nodes, id) {
            Some(i) => 0 <= i < nodes.len() && nodes[i].id@ == id && forall|j: int|
                i < j < nodes.len() ==> #[trigger] nodes[j].id@ != id,
            None => forall|j: int| 0 <= j < nodes.len() ==> #[trigger] nodes[j].id@ != id,
        },
    decreases nodes.len(),
{
    if nodes.len() > 0 {
        lemma_last_named(nodes.drop_last(), id);
        if nodes.last().id@ != id {
            assert forall|j: int| 0 <= j < nodes.len() - 1 implies nodes[j] == nodes.drop_last()[j] by {}
        }
    }
}

/// Where the node called `id` sits among `nodes`.
fn position(nodes: &Vec<Node>, id: &String) -> (r: Option<usize>)
    ensures
        match r {
            Some(i) => last_named(nodes@, id@) == Some(i as int),
            None => last_named(nodes@, id@) is None,
        },
{
    proof {
        lemma_last_named(nodes@, id@);
    }
    let mut i = nodes.len();
    while i > 0
        invariant
            i <= nodes@.len(),
            forall|j: int| i <= j < nodes@.len() ==> #[trigger] nodes@[j].id@ != id@,
            match last_named(nodes@, id@) {
                Some(k) => 0 <= k < nodes@.len() && nodes@[k].id@ == id@ && forall|j: int|
                    k < j < nodes@.len() ==> #[trigger] nodes@[j].id@ != id@,
                None => forall|j: int| 0 <= j < nodes@.len() ==> #[trigger] nodes@[j].id@ != id@,
            },
        decreases i,
    {
        if text_eq(&nodes[i - 1].id, id) {
            return Some(i - 1);
        }
        i -= 1;
    }
    None
}

impl Flow {
    /// The steps that name a node that exists, in order.
    ///
    /// An id that matches nothing is dropped rather than refused, the same way
    /// an edge naming a missing node is: a flow written against a diagram that
    /// has since lost a box should play the part it still can.
    pub fn walk<'a>(&'a self, diagram: &'a Diagram) -> (r: Vec<&'a Step>)
        ensures
            r@.map_values(|s: &Step| *s) == walked(self.steps@, diagram.nodes@),
    {
        let mut out: Vec<&'a Step> = Vec::new();
        let mut i: usize = 0;
        while i < self.steps.len()
            invariant
                i <= self.steps@.len(),
                out@.map_values(|s: &Step| *s) == walked(self.steps@.take(i as int), diagram.nodes@),
            decreases self.steps@.len() - i,
        {
            let step = &self.steps[i];
            let found = match position(&diagram.nodes, &step_id(step)) {
                Some(_) => true,
                None => false,
            };
            proof {
                lemma_last_named(diagram.nodes@, step.spec_node());
                assert(self.steps@.take(i + 1).drop_last() =~= self.steps@.take(i as int));
            }
            if found {
                out.push(step);
            }
            proof {
                assert(out@.map_values(|s: &Step| *s) =~= walked(self.steps@.take(i + 1), diagram.nodes@));
            }
            i += 1;
        }
        assert(self.steps@.take(self.steps@.len() as int) =~= self.steps@);
        out
    }
}

/// The id a step names, as an owned string.
fn step_id(step: &Step) -> (s: String)
    ensures
        s@ == step.spec_node(),
{
    match step {
        Step::Node(id) => id.clone(),
        Step::Lit { node, .. } => node.clone(),
    }
}


/// An edge's ends by position: `(from, to)`, each when it names a node.
pub type Ends = (Option<usize>, Option<usize>);

/// The nodes edge `e` joins, when both of its ends name one.
pub open spec fn arc(es: Seq<Ends>, e: int) -> Option<(int, int)> {
    match es[e] {
        (Some(u), Some(v)) => Some((u as int, v as int)),
        _ => None,
    }
}

/// The node edge `e` leaves, when it joins two.
pub open spec fn src(es: Seq<Ends>, e: int) -> int {
    match es[e] {
        (Some(u), _) => u as int,
        _ => -1,
    }
}

/// The node edge `e` enters, when it joins two.
pub open spec fn dst(es: Seq<Ends>, e: int) -> int {
    match es[e] {
        (_, Some(v)) => v as int,
        _ => -1,
    }
}

/// Whether `p` is a path of joined, kept edges leading from node `a` to node `b`.
pub open spec fn runs(es: Seq<Ends>, back: Seq<bool>, p: Seq<int>, a: int, b: int) -> bool {
    &&& forall|i: int|
        0 <= i < p.len() ==> 0 <= #[trigger] p[i] < es.len() && arc(es, p[i]) is Some
            && !back[p[i]]
    &&& p.len() == 0 ==> a == b
    &&& p.len() > 0 ==> src(es, p[0]) == a && dst(es, p.last()) == b
    &&& forall|i: int|
        0 <= i < p.len() - 1 ==> dst(es, #[trigger] p[i]) == src(es, p[i + 1])
}

proof fn lemma_injective_bound(f: spec_fn(int) -> int, len: int, n: int)
    requires
        0 <= len,
        0 <= n,
        forall|i: int| 0 <= i < len ==> 0 <= #[trigger] f(i) < n,
        forall|i: int, j: int| 0 <= i < len && 0 <= j < len && #[trigger] f(i) == #[trigger] f(j) ==> i == j,
    ensures
        len <= n,
{
    let a = vstd::set_lib::set_int_range(0, len);
    vstd::set_lib::lemma_int_range(0, len);
    let b = a.map(f);
    assert(vstd::relations::injective_on(f, a));
    vstd::set_lib::lemma_map_size(a, b, f);
    assert(b.len() == len);
    let r = vstd::set_lib::set_int_range(0, n);
    vstd::set_lib::lemma_int_range(0, n);
    assert forall|t: int| b.contains(t) implies r.contains(t) by {
        let i = choose|i: int| a.contains(i) && f(i) == t;
        assert(0 <= f(i) < n);
    }
    vstd::set_lib::lemma_len_subset(b, r);
}

/// Whether some `j` below `n` is sent to `t`.
spec fn hit(f: spec_fn(int) -> int, n: int, t: int) -> bool {
    exists|j: int| 0 <= j < n && #[trigger] f(j) == t
}

proof fn lemma_cover_bound(f: spec_fn(int) -> int, n: int, count: int)
    requires
        0 <= n,
        0 <= count,
        forall|t: int| 0 <= t < count ==> #[trigger] hit(f, n, t),
    ensures
        count <= n,
{
    let a = vstd::set_lib::set_int_range(0, n);
    vstd::set_lib::lemma_int_range(0, n);
    let b = a.map(f);
    vstd::set_lib::lemma_map_size_bound(a, b, f);
    vstd::set_lib::lemma_int_range(0, count);
    assert forall|t: int| vstd::set_lib::set_int_range(0, count).contains(t) implies b.contains(t) by {
        assert(hit(f, n, t));
        let j = choose|j: int| 0 <= j < n && #[trigger] f(j) == t;
        assert(a.contains(j));
    }
    vstd::set_lib::lemma_len_subset(vstd::set_lib::set_int_range(0, count), b);
}

/// The state of the depth-first walk that finds the edges to set aside.
struct Search {
    /// Which edges close a loop.
    back: Vec<bool>,
    /// Which nodes are finished.
    done: Vec<bool>,
    /// Which nodes are on the current path.
    on_path: Vec<bool>,
    /// The nodes in the order they finished.
    order: Vec<usize>,
    /// The current path: each node with the next edge to look at from it.
    stack: Vec<(usize, usize)>,
    /// Where each finished node sits in `order`.
    fin: Ghost<Seq<int>>,
    /// How far each node's edges have been looked at.
    seen: Ghost<Seq<int>>,
    /// Where each node on the path sits in `stack`.
    pos: Ghost<Seq<int>>,
    /// For each edge set aside, a kept path that closes its loop.
    paths: Ghost<Map<int, Seq<int>>>,
}

impl Search {
    spec fn inv(self, n: int, es: Seq<Ends>) -> bool {
        let m = es.len();
        let back = self.back@;
        let done = self.done@;
        let on_path = self.on_path@;
        let order = self.order@;
        let stack = self.stack@;
        let fin = self.fin@;
        let seen = self.seen@;
        let pos = self.pos@;
        &&& back.len() == m
        &&& done.len() == n
        &&& on_path.len() == n
        &&& fin.len() == n
        &&& seen.len() == n
        &&& pos.len() == n
        &&& forall|e: int| 0 <= e < m ==> #[trigger] src(es, e) < n
        &&& forall|e: int| 0 <= e < m ==> #[trigger] dst(es, e) < n
        // The path.
        &&& forall|k: int|
            0 <= k < stack.len() ==> (#[trigger] stack[k]).0 < n && on_path[stack[k].0 as int]
                && stack[k].1 <= m && seen[stack[k].0 as int] == stack[k].1 && pos[stack[k].0 as int]
                == k
        &&& forall|x: int|
            0 <= x < n && #[trigger] on_path[x] ==> 0 <= pos[x] < stack.len() && stack[pos[x]].0
                == x && !done[x]
        // Finished nodes.
        &&& forall|x: int|
            0 <= x < n && #[trigger] done[x] ==> 0 <= fin[x] < order.len() && order[fin[x]] == x
                && seen[x] == m
        &&& forall|i: int|
            0 <= i < order.len() ==> (#[trigger] order[i]) < n && done[order[i] as int]
                && fin[order[i] as int] == i
        &&& forall|x: int| 0 <= x < n && !done[x] && !on_path[x] ==> #[trigger] seen[x] == 0
        &&& forall|x: int| 0 <= x < n ==> 0 <= #[trigger] seen[x] <= m
        // The links of the path are kept edges.
        &&& forall|k: int|
            0 < k < stack.len() ==> {
                let e = stack[k - 1].1 - 1;
                &&& 0 <= e < m
                &&& arc(es, e) == Some(((#[trigger] stack[k - 1]).0 as int, stack[k].0 as int))
                &&& !back[e]
            }
        // Every edge looked at is set aside, finished, or the current link.
        &&& forall|e: int|
            0 <= e < m && #[trigger] arc(es, e) is Some && e < seen[src(es, e)] ==> {
                let u = src(es, e);
                let v = dst(es, e);
                ||| back[e]
                ||| done[v] && (done[u] ==> fin[v] < fin[u])
                ||| on_path[u] && pos[u] + 1 < stack.len() && stack[pos[u] + 1].0 == v && e
                    == seen[u] - 1
            }
        // Edges set aside run against the finishing order, and close a loop.
        &&& forall|e: int|
            0 <= e < m && #[trigger] back[e] ==> arc(es, e) is Some && {
                let u = src(es, e);
                let v = dst(es, e);
                &&& e < seen[u]
                &&& {
                    ||| done[u] && done[v] && fin[v] >= fin[u]
                    ||| done[u] && !done[v] && on_path[v]
                    ||| on_path[u] && on_path[v] && pos[v] <= pos[u]
                }
                &&& self.paths@.contains_key(e)
                &&& runs(es, back, self.paths@[e], v, u)
                &&& forall|i: int|
                    0 <= i < self.paths@[e].len() ==> #[trigger] self.paths@[e][i] < seen[src(es, self.paths@[e][i])]
            }
    }
}


/// What is left to look at along the current path.
spec fn slack(stack: Seq<(usize, usize)>, m: int) -> int
    decreases stack.len(),
{
    if stack.len() == 0 {
        0
    } else {
        slack(stack.drop_last(), m) + (m - stack.last().1)
    }
}

/// The first edge at or after `cursor` that leaves `node`.
fn next_from(es: &Vec<Ends>, node: usize, cursor: usize) -> (r: Option<usize>)
    ensures
        match r {
            Some(e) => cursor <= e < es@.len() && es@[e as int].0 == Some(node) && forall|j: int|
                cursor <= j < e ==> (#[trigger] es@[j]).0 != Some(node),
            None => forall|j: int| cursor <= j < es@.len() ==> (#[trigger] es@[j]).0 != Some(node),
        },
{
    let mut j = cursor;
    while j < es.len()
        invariant
            cursor <= j || es@.len() <= j,
            forall|i: int| cursor <= i < j && i < es@.len() ==> (#[trigger] es@[i]).0 != Some(node),
        decreases es@.len() - j,
    {
        if es[j].0 == Some(node) {
            return Some(j);
        }
        j += 1;
    }
    None
}

impl Search {
    /// The walk this state stands for, with `start` the next node to start from.
    spec fn walk_at(self, start: int) -> Walk {
        Walk {
            back: self.back@,
            done: self.done@,
            on_path: self.on_path@,
            order: self.order@,
            stack: self.stack@,
            start,
        }
    }

    /// How much of the walk is left: nodes not yet reached, nodes not yet
    /// finished, and edges not yet looked at along the path.
    spec fn measure(self, n: int, m: int) -> (int, int, int) {
        (
            n - self.order@.len() - self.stack@.len(),
            n - self.order@.len(),
            slack(self.stack@, m),
        )
    }

    proof fn lemma_cursors(self, n: int, es: Seq<Ends>)
        requires
            self.inv(n, es),
        ensures
            forall|k: int| 0 <= k < self.stack@.len() ==> (#[trigger] self.stack@[k]).1 <= es.len(),
    {
    }

    proof fn lemma_room(self, n: int, es: Seq<Ends>)
        requires
            self.inv(n, es),
        ensures
            self.order@.len() + self.stack@.len() <= n,
    {
        let ol = self.order@.len() as int;
        let f = |i: int|
            if i < ol {
                self.order@[i] as int
            } else {
                self.stack@[i - ol].0 as int
            };
        assert forall|i: int, j: int|
            0 <= i < ol + self.stack@.len() && 0 <= j < ol + self.stack@.len() && #[trigger] f(i)
                == #[trigger] f(j) implies i == j by {
            if i < ol && j < ol {
                assert(self.fin@[self.order@[i] as int] == i);
            } else if i >= ol && j >= ol {
                assert(self.pos@[self.stack@[i - ol].0 as int] == i - ol);
                assert(self.pos@[self.stack@[j - ol].0 as int] == j - ol);
            } else if i < ol {
                assert(self.done@[self.order@[i] as int]);
                assert(self.on_path@[self.stack@[j - ol].0 as int]);
            } else {
                assert(self.done@[self.order@[j] as int]);
                assert(self.on_path@[self.stack@[i - ol].0 as int]);
            }
        }
        lemma_injective_bound(f, ol + self.stack@.len(), n);
    }

    /// A walk that has not started.
    fn new(n: usize, es: &Vec<Ends>) -> (s: Self)
        requires
            forall|e: int| 0 <= e < es@.len() ==> #[trigger] src(es@, e) < n,
            forall|e: int| 0 <= e < es@.len() ==> #[trigger] dst(es@, e) < n,
        ensures
            s.inv(n as int, es@),
            s.stack@.len() == 0,
            s.order@.len() == 0,
            forall|x: int| 0 <= x < n ==> !(#[trigger] s.done@[x]),
            s.walk_at(0) == walk_begin(n as int, es@.len() as int),
    {
        let mut back: Vec<bool> = Vec::new();
        let mut e: usize = 0;
        while e < es.len()
            invariant
                e <= es@.len(),
                back@ == Seq::new(e as nat, |i: int| false),
            decreases es@.len() - e,
        {
            back.push(false);
            e += 1;
        }
        let mut done: Vec<bool> = Vec::new();
        let mut on_path: Vec<bool> = Vec::new();
        let mut x: usize = 0;
        while x < n
            invariant
                x <= n,
                done@ == Seq::new(x as nat, |i: int| false),
                on_path@ == Seq::new(x as nat, |i: int| false),
            decreases n - x,
        {
            done.push(false);
            on_path.push(false);
            x += 1;
        }
        let s = Search {
            back,
            done,
            on_path,
            order: Vec::new(),
            stack: Vec::new(),
            fin: Ghost(Seq::new(n as nat, |i: int| 0)),
            seen: Ghost(Seq::new(n as nat, |i: int| 0)),
            pos: Ghost(Seq::new(n as nat, |i: int| 0)),
            paths: Ghost(Map::empty()),
        };
        proof {
            assert(s.walk_at(0).back =~= walk_begin(n as int, es@.len() as int).back);
            assert(s.walk_at(0).done =~= walk_begin(n as int, es@.len() as int).done);
            assert(s.walk_at(0).on_path =~= walk_begin(n as int, es@.len() as int).on_path);
            assert(s.walk_at(0).order =~= walk_begin(n as int, es@.len() as int).order);
            assert(s.walk_at(0).stack =~= walk_begin(n as int, es@.len() as int).stack);
        }
        s
    }

    /// Start a walk from `x`.
    fn root(&mut self, x: usize, Ghost(n): Ghost<int>, Ghost(es): Ghost<Seq<Ends>>)
        requires
            old(self).inv(n, es),
            old(self).stack@.len() == 0,
            0 <= x < n,
            !old(self).done@[x as int],
        ensures
            final(self).inv(n, es),
            final(self).stack@ == seq![(x, 0usize)],
            final(self).on_path@ == old(self).on_path@.update(x as int, true),
            final(self).done@ == old(self).done@,
            final(self).order@ == old(self).order@,
            final(self).back@ == old(self).back@,
    {
        proof {
            assert(!self.on_path@[x as int]);
        }
        self.on_path.set(x, true);
        self.stack.push((x, 0));
        proof {
            self.pos@ = self.pos@.update(x as int, 0);
        }
    }
}


proof fn lemma_slack_top(stack: Seq<(usize, usize)>, m: int, top: (usize, usize))
    requires
        stack.len() > 0,
    ensures
        slack(stack.update(stack.len() - 1, top), m) == slack(stack, m) - (m - stack.last().1) + (m
            - top.1),
        slack(stack.drop_last(), m) == slack(stack, m) - (m - stack.last().1),
{
    assert(stack.update(stack.len() - 1, top).drop_last() =~= stack.drop_last());
}

impl Search {
    /// The node on top of the path has no edge left: it is finished.
    fn finish(&mut self, es: &Vec<Ends>, Ghost(n): Ghost<int>)
        requires
            old(self).inv(n, es@),
            old(self).stack@.len() > 0,
            forall|j: int|
                old(self).stack@.last().1 <= j < es@.len() ==> (#[trigger] es@[j]).0 != Some(
                    old(self).stack@.last().0,
                ),
        ensures
            final(self).inv(n, es@),
            final(self).stack@ == old(self).stack@.drop_last(),
            final(self).order@ == old(self).order@.push(old(self).stack@.last().0),
            final(self).done@ == old(self).done@.update(old(self).stack@.last().0 as int, true),
            final(self).on_path@ == old(self).on_path@.update(old(self).stack@.last().0 as int, false),
            final(self).back@ == old(self).back@,
            final(self).order@.len() == old(self).order@.len() + 1,
            forall|x: int| 0 <= x < n && #[trigger] old(self).done@[x] ==> final(self).done@[x],
            forall|x: int|
                0 <= x < n && #[trigger] old(self).on_path@[x] ==> final(self).on_path@[x]
                    || final(self).done@[x],
    {
        let ghost m = es@.len() as int;
        let ghost old_s = *self;
        let top = self.stack.len() - 1;
        let (node, cursor) = self.stack[top];
        self.stack.pop();
        self.on_path.set(node, false);
        self.done.set(node, true);
        proof {
            self.fin@ = self.fin@.update(node as int, self.order@.len() as int);
            self.seen@ = self.seen@.update(node as int, m);
        }
        self.order.push(node);
        proof {
            let es = es@;
            let x = node as int;
            assert(old_s.stack@[top as int] == (node, cursor));
            assert forall|k: int|
                0 <= k < self.stack@.len() implies (#[trigger] self.stack@[k]).0 != node by {
                assert(old_s.stack@[k] == self.stack@[k]);
            }
            assert forall|e: int|
                0 <= e < m && #[trigger] arc(es, e) is Some && e < self.seen@[src(es, e)] implies {
                let u = src(es, e);
                let v = dst(es, e);
                ||| self.back@[e]
                ||| self.done@[v] && (self.done@[u] ==> self.fin@[v] < self.fin@[u])
                ||| self.on_path@[u] && self.pos@[u] + 1 < self.stack@.len() && self.stack@[self.pos@[u]
                    + 1].0 == v && e == self.seen@[u] - 1
            } by {
                let u = src(es, e);
                let v = dst(es, e);
                if u == x {
                    if e >= cursor {
                        assert(es[e].0 == Some(node));
                    }
                    assert(e < old_s.seen@[u]);
                    if !self.back@[e] {
                        assert(old_s.done@[v]);
                    }
                } else {
                    assert(e < old_s.seen@[u]);
                }
            }
            assert forall|e: int| 0 <= e < m && #[trigger] self.back@[e] implies arc(es, e) is Some && {
                let u = src(es, e);
                let v = dst(es, e);
                &&& e < self.seen@[u]
                &&& {
                    ||| self.done@[u] && self.done@[v] && self.fin@[v] >= self.fin@[u]
                    ||| self.done@[u] && !self.done@[v] && self.on_path@[v]
                    ||| self.on_path@[u] && self.on_path@[v] && self.pos@[v] <= self.pos@[u]
                }
                &&& self.paths@.contains_key(e)
                &&& runs(es, self.back@, self.paths@[e], v, u)
                &&& forall|i: int|
                    0 <= i < self.paths@[e].len() ==> #[trigger] self.paths@[e][i] < self.seen@[src(
                        es,
                        self.paths@[e][i],
                    )]
            } by {
                let u = src(es, e);
                let v = dst(es, e);
                assert(old_s.back@[e]);
                let p = self.paths@[e];
                assert forall|i: int| 0 <= i < p.len() implies #[trigger] p[i] < self.seen@[src(es, p[i])] by {
                    assert(p[i] < old_s.seen@[src(es, p[i])]);
                }
            }
        }
    }
}

impl Search {
    /// Look at edge `e`, the next one leaving the node on top of the path,
    /// when it leads nowhere new: to no node, or to a finished one.
    fn pass(&mut self, es: &Vec<Ends>, e: usize, Ghost(n): Ghost<int>)
        requires
            old(self).inv(n, es@),
            old(self).stack@.len() > 0,
            old(self).stack@.last().1 <= e < es@.len(),
            es@[e as int].0 == Some(old(self).stack@.last().0),
            forall|j: int|
                old(self).stack@.last().1 <= j < e ==> (#[trigger] es@[j]).0 != Some(
                    old(self).stack@.last().0,
                ),
            es@[e as int].1 matches Some(v) ==> old(self).done@[v as int],
        ensures
            final(self).inv(n, es@),
            final(self).stack@ == old(self).stack@.update(
                old(self).stack@.len() - 1,
                (old(self).stack@.last().0, (e + 1) as usize),
            ),
            final(self).order@ == old(self).order@,
            final(self).done@ == old(self).done@,
            final(self).on_path@ == old(self).on_path@,
            final(self).back@ == old(self).back@,
    {
        let ghost m = es@.len() as int;
        let ghost old_s = *self;
        let top = self.stack.len() - 1;
        let (node, cursor) = self.stack[top];
        assert(e < es.len());
        assert(src(es@, e as int) < n);
        assert(dst(es@, e as int) < n);
        self.stack.set(top, (node, e + 1));
        proof {
            self.seen@ = self.seen@.update(node as int, e + 1);
            let es = es@;
            let x = node as int;
            assert(old_s.stack@[top as int] == (node, cursor));
            assert forall|e2: int|
                0 <= e2 < m && #[trigger] arc(es, e2) is Some && e2 < self.seen@[src(es, e2)] implies {
                let u = src(es, e2);
                let v = dst(es, e2);
                ||| self.back@[e2]
                ||| self.done@[v] && (self.done@[u] ==> self.fin@[v] < self.fin@[u])
                ||| self.on_path@[u] && self.pos@[u] + 1 < self.stack@.len() && self.stack@[self.pos@[u]
                    + 1].0 == v && e2 == self.seen@[u] - 1
            } by {
                let u = src(es, e2);
                if u == x {
                    if e2 != e && e2 >= cursor {
                        assert(es[e2].0 == Some(node));
                    }
                }
            }
            assert forall|e2: int| 0 <= e2 < m && #[trigger] self.back@[e2] implies arc(es, e2) is Some && {
                let u = src(es, e2);
                let v = dst(es, e2);
                &&& e2 < self.seen@[u]
                &&& {
                    ||| self.done@[u] && self.done@[v] && self.fin@[v] >= self.fin@[u]
                    ||| self.done@[u] && !self.done@[v] && self.on_path@[v]
                    ||| self.on_path@[u] && self.on_path@[v] && self.pos@[v] <= self.pos@[u]
                }
                &&& self.paths@.contains_key(e2)
                &&& runs(es, self.back@, self.paths@[e2], v, u)
                &&& forall|i: int|
                    0 <= i < self.paths@[e2].len() ==> #[trigger] self.paths@[e2][i] < self.seen@[src(
                        es,
                        self.paths@[e2][i],
                    )]
            } by {
                let p = self.paths@[e2];
                assert forall|i: int| 0 <= i < p.len() implies #[trigger] p[i] < self.seen@[src(es, p[i])] by {
                    assert(p[i] < old_s.seen@[src(es, p[i])]);
                }
            }
        }
    }

    /// Look at edge `e`, the next one leaving the node on top of the path,
    /// when it leads back onto the path: it closes a loop and is set aside.
    fn close(&mut self, es: &Vec<Ends>, e: usize, Ghost(n): Ghost<int>)
        requires
            old(self).inv(n, es@),
            old(self).stack@.len() > 0,
            old(self).stack@.last().1 <= e < es@.len(),
            es@[e as int].0 == Some(old(self).stack@.last().0),
            forall|j: int|
                old(self).stack@.last().1 <= j < e ==> (#[trigger] es@[j]).0 != Some(
                    old(self).stack@.last().0,
                ),
            es@[e as int].1 matches Some(v) && old(self).on_path@[v as int],
        ensures
            final(self).inv(n, es@),
            final(self).stack@ == old(self).stack@.update(
                old(self).stack@.len() - 1,
                (old(self).stack@.last().0, (e + 1) as usize),
            ),
            final(self).order@ == old(self).order@,
            final(self).done@ == old(self).done@,
            final(self).on_path@ == old(self).on_path@,
            final(self).back@ == old(self).back@.update(e as int, true),
    {
        let ghost m = es@.len() as int;
        let ghost old_s = *self;
        let top = self.stack.len() - 1;
        let (node, cursor) = self.stack[top];
        assert(e < es.len());
        assert(src(es@, e as int) < n);
        assert(dst(es@, e as int) < n);
        let ghost to = dst(es@, e as int);
        let ghost start = self.pos@[to];
        let ghost path = Seq::new((top - start) as nat, |i: int| self.stack@[start + i].1 - 1);
        self.stack.set(top, (node, e + 1));
        self.back.set(e, true);
        proof {
            self.seen@ = self.seen@.update(node as int, e + 1);
            self.paths@ = self.paths@.insert(e as int, path);
            let es = es@;
            let x = node as int;
            assert(old_s.stack@[top as int] == (node, cursor));
            // No path already recorded, nor any link of the current one, uses `e`.
            assert forall|e2: int| 0 <= e2 < m && #[trigger] old_s.back@[e2] implies forall|i: int|
                0 <= i < old_s.paths@[e2].len() ==> #[trigger] old_s.paths@[e2][i] != e by {
                assert forall|i: int| 0 <= i < old_s.paths@[e2].len() implies #[trigger] old_s.paths@[e2][i] != e by {
                    assert(old_s.paths@[e2][i] < old_s.seen@[src(es, old_s.paths@[e2][i])]);
                }
            }
            assert forall|k: int| 0 < k < self.stack@.len() implies #[trigger] self.stack@[k - 1].1 - 1 != e by {
                assert(old_s.stack@[k - 1] == self.stack@[k - 1]);
                let l = self.stack@[k - 1].1 - 1;
                assert(arc(es, l) == Some((self.stack@[k - 1].0 as int, self.stack@[k].0 as int)));
                assert(self.pos@[self.stack@[k - 1].0 as int] == k - 1);
            }
            assert(runs(es, self.back@, path, to, x)) by {
                assert forall|i: int| 0 <= i < path.len() implies 0 <= #[trigger] path[i] < es.len()
                    && arc(es, path[i]) is Some && !self.back@[path[i]] by {
                    let k = start + i + 1;
                    assert(0 < k < old_s.stack@.len());
                    assert(path[i] == old_s.stack@[k - 1].1 - 1);
                }
                assert forall|i: int| 0 <= i < path.len() - 1 implies dst(es, #[trigger] path[i]) == src(es, path[i + 1]) by {
                    let k = start + i + 1;
                    assert(0 < k < old_s.stack@.len());
                    assert(0 < k + 1 < old_s.stack@.len());
                    assert(path[i] == old_s.stack@[k - 1].1 - 1);
                    assert(path[i + 1] == old_s.stack@[(k + 1) - 1].1 - 1);
                    assert(arc(es, path[i]) == Some((old_s.stack@[k - 1].0 as int, old_s.stack@[k].0 as int)));
                    assert(arc(es, path[i + 1]) == Some((old_s.stack@[(k + 1) - 1].0 as int, old_s.stack@[k + 1].0 as int)));
                }
                assert(old_s.stack@[start].0 as int == to);
                if path.len() > 0 {
                    assert(path[0] == old_s.stack@[(start + 1) - 1].1 - 1);
                    assert(0 < start + 1 < old_s.stack@.len());
                    assert(arc(es, path[0]) == Some((old_s.stack@[start].0 as int, old_s.stack@[start + 1].0 as int)));
                    assert(path.last() == old_s.stack@[top - 1].1 - 1);
                    assert(0 < top < old_s.stack@.len());
                    assert(arc(es, path.last()) == Some((old_s.stack@[top - 1].0 as int, old_s.stack@[top as int].0 as int)));
                }
            }
            assert forall|e2: int|
                0 <= e2 < m && #[trigger] arc(es, e2) is Some && e2 < self.seen@[src(es, e2)] implies {
                let u = src(es, e2);
                let v = dst(es, e2);
                ||| self.back@[e2]
                ||| self.done@[v] && (self.done@[u] ==> self.fin@[v] < self.fin@[u])
                ||| self.on_path@[u] && self.pos@[u] + 1 < self.stack@.len() && self.stack@[self.pos@[u]
                    + 1].0 == v && e2 == self.seen@[u] - 1
            } by {
                let u = src(es, e2);
                if u == x {
                    if e2 != e && e2 >= cursor {
                        assert(es[e2].0 == Some(node));
                    }
                }
            }
            assert forall|e2: int| 0 <= e2 < m && #[trigger] self.back@[e2] implies arc(es, e2) is Some && {
                let u = src(es, e2);
                let v = dst(es, e2);
                &&& e2 < self.seen@[u]
                &&& {
                    ||| self.done@[u] && self.done@[v] && self.fin@[v] >= self.fin@[u]
                    ||| self.done@[u] && !self.done@[v] && self.on_path@[v]
                    ||| self.on_path@[u] && self.on_path@[v] && self.pos@[v] <= self.pos@[u]
                }
                &&& self.paths@.contains_key(e2)
                &&& runs(es, self.back@, self.paths@[e2], v, u)
                &&& forall|i: int|
                    0 <= i < self.paths@[e2].len() ==> #[trigger] self.paths@[e2][i] < self.seen@[src(
                        es,
                        self.paths@[e2][i],
                    )]
            } by {
                if e2 == e as int {
                    assert forall|i: int| 0 <= i < path.len() implies #[trigger] path[i] < self.seen@[src(es, path[i])] by {
                        let k = start + i + 1;
                        assert(0 < k < self.stack@.len());
                        assert(path[i] == self.stack@[k - 1].1 - 1);
                    }
                } else {
                    let p = self.paths@[e2];
                    assert(old_s.back@[e2]);
                    assert forall|i: int| 0 <= i < p.len() implies #[trigger] p[i] < self.seen@[src(es, p[i])] by {
                        assert(p[i] < old_s.seen@[src(es, p[i])]);
                    }
                    assert forall|i: int| 0 <= i < p.len() implies !self.back@[#[trigger] p[i]] by {
                        assert(p[i] != e);
                    }
                }
            }
        }
    }

    /// Look at edge `e`, the next one leaving the node on top of the path,
    /// when it leads somewhere not yet reached: walk on to it.
    fn descend(&mut self, es: &Vec<Ends>, e: usize, Ghost(n): Ghost<int>)
        requires
            old(self).inv(n, es@),
            old(self).stack@.len() > 0,
            old(self).stack@.last().1 <= e < es@.len(),
            es@[e as int].0 == Some(old(self).stack@.last().0),
            forall|j: int|
                old(self).stack@.last().1 <= j < e ==> (#[trigger] es@[j]).0 != Some(
                    old(self).stack@.last().0,
                ),
            es@[e as int].1 matches Some(v) && !old(self).on_path@[v as int] && !old(
                self,
            ).done@[v as int],
        ensures
            final(self).inv(n, es@),
            final(self).stack@ == old(self).stack@.update(
                old(self).stack@.len() - 1,
                (old(self).stack@.last().0, (e + 1) as usize),
            ).push((es@[e as int].1->0, 0usize)),
            final(self).order@ == old(self).order@,
            final(self).done@ == old(self).done@,
            final(self).on_path@ == old(self).on_path@.update(es@[e as int].1->0 as int, true),
            final(self).back@ == old(self).back@,
            forall|x: int| 0 <= x < n && #[trigger] old(self).on_path@[x] ==> final(self).on_path@[x],
    {
        let ghost m = es@.len() as int;
        let ghost old_s = *self;
        let top = self.stack.len() - 1;
        let (node, cursor) = self.stack[top];
        assert(e < es.len());
        assert(src(es@, e as int) < n);
        assert(dst(es@, e as int) < n);
        let to = match es[e].1 {
            Some(v) => v,
            None => 0,
        };
        assert(dst(es@, e as int) == to);
        self.stack.set(top, (node, e + 1));
        self.on_path.set(to, true);
        self.stack.push((to, 0));
        proof {
            self.seen@ = self.seen@.update(node as int, e + 1);
            self.pos@ = self.pos@.update(to as int, top + 1);
            let es = es@;
            let x = node as int;
            assert(old_s.stack@[top as int] == (node, cursor));
            assert(old_s.seen@[to as int] == 0);
            assert forall|k: int| 0 <= k < old_s.stack@.len() implies (#[trigger] old_s.stack@[k]).0 != to by {}
            assert(!old_s.back@[e as int]);
            assert forall|e2: int|
                0 <= e2 < m && #[trigger] arc(es, e2) is Some && e2 < self.seen@[src(es, e2)] implies {
                let u = src(es, e2);
                let v = dst(es, e2);
                ||| self.back@[e2]
                ||| self.done@[v] && (self.done@[u] ==> self.fin@[v] < self.fin@[u])
                ||| self.on_path@[u] && self.pos@[u] + 1 < self.stack@.len() && self.stack@[self.pos@[u]
                    + 1].0 == v && e2 == self.seen@[u] - 1
            } by {
                let u = src(es, e2);
                if u == x {
                    if e2 != e && e2 >= cursor {
                        assert(es[e2].0 == Some(node));
                    }
                } else if u == to as int {
                    assert(old_s.seen@[u] == 0);
                } else {
                    assert(e2 < old_s.seen@[u]);
                }
            }
            assert forall|e2: int| 0 <= e2 < m && #[trigger] self.back@[e2] implies arc(es, e2) is Some && {
                let u = src(es, e2);
                let v = dst(es, e2);
                &&& e2 < self.seen@[u]
                &&& {
                    ||| self.done@[u] && self.done@[v] && self.fin@[v] >= self.fin@[u]
                    ||| self.done@[u] && !self.done@[v] && self.on_path@[v]
                    ||| self.on_path@[u] && self.on_path@[v] && self.pos@[v] <= self.pos@[u]
                }
                &&& self.paths@.contains_key(e2)
                &&& runs(es, self.back@, self.paths@[e2], v, u)
                &&& forall|i: int|
                    0 <= i < self.paths@[e2].len() ==> #[trigger] self.paths@[e2][i] < self.seen@[src(
                        es,
                        self.paths@[e2][i],
                    )]
            } by {
                let u = src(es, e2);
                assert(e2 < old_s.seen@[u]);
                if u == to as int {
                    assert(old_s.seen@[u] == 0);
                }
                let p = self.paths@[e2];
                assert forall|i: int| 0 <= i < p.len() implies #[trigger] p[i] < self.seen@[src(es, p[i])] by {
                    assert(p[i] < old_s.seen@[src(es, p[i])]);
                }
            }
        }
    }
}

proof fn lemma_slack_nonneg(stack: Seq<(usize, usize)>, m: int)
    requires
        forall|k: int| 0 <= k < stack.len() ==> (#[trigger] stack[k]).1 <= m,
    ensures
        slack(stack, m) >= 0,
    decreases stack.len(),
{
    if stack.len() > 0 {
        assert forall|k: int| 0 <= k < stack.len() - 1 implies (#[trigger] stack.drop_last()[k]).1 <= m by {
            assert(stack.drop_last()[k] == stack[k]);
        }
        lemma_slack_nonneg(stack.drop_last(), m);
    }
}

/// A depth-first walk over a diagram's nodes, as a value: which edges it has
/// set aside, which nodes are finished and which are on the current path, the
/// nodes in the order they finished, the current path (each node with the next
/// edge to look at from it), and the next node to start a walk from.
pub struct Walk {
    pub back: Seq<bool>,
    pub done: Seq<bool>,
    pub on_path: Seq<bool>,
    pub order: Seq<usize>,
    pub stack: Seq<(usize, usize)>,
    pub start: int,
}

/// The first edge at or after `c` that leaves node `x`.
pub open spec fn next_edge(es: Seq<Ends>, x: usize, c: int) -> Option<int>
    decreases es.len() - c,
{
    if c < 0 || c >= es.len() {
        None
    } else if es[c].0 == Some(x) {
        Some(c)
    } else {
        next_edge(es, x, c + 1)
    }
}

/// A walk over `n` nodes and `m` edges that has not started.
pub open spec fn walk_begin(n: int, m: int) -> Walk {
    Walk {
        back: Seq::new(m as nat, |e: int| false),
        done: Seq::new(n as nat, |x: int| false),
        on_path: Seq::new(n as nat, |x: int| false),
        order: Seq::empty(),
        stack: Seq::empty(),
        start: 0,
    }
}

/// Whether the walk has reached every node and left none on its path.
pub open spec fn walk_over(n: int, w: Walk) -> bool {
    w.stack.len() == 0 && w.start >= n
}

/// One move of the walk.
///
/// With no path, it starts from the next node not yet finished, in
/// declaration order. Otherwise it looks at the next edge, in declaration
/// order, that leaves the node on top of the path: an edge back onto the path
/// closes a loop and is set aside; one to a node not yet reached is followed;
/// any other is passed over. A node with no edge left is finished.
pub open spec fn walk_step(n: int, es: Seq<Ends>, w: Walk) -> Walk {
    if w.stack.len() == 0 {
        if w.start >= n {
            w
        } else if w.done[w.start] {
            Walk { start: w.start + 1, ..w }
        } else {
            Walk {
                on_path: w.on_path.update(w.start, true),
                stack: seq![(w.start as usize, 0usize)],
                ..w
            }
        }
    } else {
        let x = w.stack.last().0;
        match next_edge(es, x, w.stack.last().1 as int) {
            None => Walk {
                done: w.done.update(x as int, true),
                on_path: w.on_path.update(x as int, false),
                order: w.order.push(x),
                stack: w.stack.drop_last(),
                ..w
            },
            Some(e) => {
                let stack = w.stack.update(w.stack.len() - 1, (x, (e + 1) as usize));
                match es[e].1 {
                    Some(v) => if w.on_path[v as int] {
                        Walk { back: w.back.update(e, true), stack, ..w }
                    } else if w.done[v as int] {
                        Walk { stack, ..w }
                    } else {
                        Walk {
                            on_path: w.on_path.update(v as int, true),
                            stack: stack.push((v, 0usize)),
                            ..w
                        }
                    },
                    None => Walk { stack, ..w },
                }
            },
        }
    }
}

/// The walk after `k` moves.
pub open spec fn walk_run(n: int, es: Seq<Ends>, w: Walk, k: nat) -> Walk
    decreases k,
{
    if k == 0 {
        w
    } else {
        walk_run(n, es, walk_step(n, es, w), (k - 1) as nat)
    }
}

/// Where the walk over `n` nodes ends: the first node's walk started first,
/// each node's edges looked at in declaration order.
pub open spec fn walk_end(n: int, es: Seq<Ends>) -> Walk {
    walk_run(n, es, walk_begin(n, es.len() as int), choose|k: nat| walk_over(n, walk_run(n, es, walk_begin(n, es.len() as int), k)))
}

proof fn lemma_run_split(n: int, es: Seq<Ends>, w: Walk, a: nat, b: nat)
    ensures
        walk_run(n, es, w, a + b) == walk_run(n, es, walk_run(n, es, w, a), b),
    decreases a,
{
    if a > 0 {
        lemma_run_split(n, es, walk_step(n, es, w), (a - 1) as nat, b);
        assert((a + b - 1) as nat == ((a - 1) as nat + b) as nat);
    }
}

proof fn lemma_run_over(n: int, es: Seq<Ends>, w: Walk, k: nat)
    requires
        walk_over(n, w),
    ensures
        walk_run(n, es, w, k) == w,
    decreases k,
{
    if k > 0 {
        lemma_run_over(n, es, w, (k - 1) as nat);
    }
}

proof fn lemma_run_next(n: int, es: Seq<Ends>, w: Walk, k: nat)
    ensures
        walk_run(n, es, w, k + 1) == walk_step(n, es, walk_run(n, es, w, k)),
{
    lemma_run_split(n, es, w, k, 1);
    assert(walk_run(n, es, walk_step(n, es, walk_run(n, es, w, k)), 0) == walk_step(n, es, walk_run(n, es, w, k)));
}

/// A walk that is over after `k` moves ends where [`walk_end`] says.
proof fn lemma_walk_end(n: int, es: Seq<Ends>, k: nat)
    requires
        walk_over(n, walk_run(n, es, walk_begin(n, es.len() as int), k)),
    ensures
        walk_end(n, es) == walk_run(n, es, walk_begin(n, es.len() as int), k),
{
    let w0 = walk_begin(n, es.len() as int);
    let j = choose|j: nat| walk_over(n, walk_run(n, es, w0, j));
    assert(walk_over(n, walk_run(n, es, w0, j)));
    if j <= k {
        lemma_run_split(n, es, w0, j, (k - j) as nat);
        lemma_run_over(n, es, walk_run(n, es, w0, j), (k - j) as nat);
        assert((j + (k - j) as nat) as nat == k);
    } else {
        lemma_run_split(n, es, w0, k, (j - k) as nat);
        lemma_run_over(n, es, walk_run(n, es, w0, k), (j - k) as nat);
        assert((k + (j - k) as nat) as nat == j);
    }
}

/// The edge that `next_from` finds is the one [`next_edge`] names.
proof fn lemma_next_edge(es: Seq<Ends>, x: usize, c: int, r: Option<usize>)
    requires
        0 <= c,
        match r {
            Some(e) => c <= e < es.len() && es[e as int].0 == Some(x) && forall|j: int|
                c <= j < e ==> (#[trigger] es[j]).0 != Some(x),
            None => forall|j: int| c <= j < es.len() ==> (#[trigger] es[j]).0 != Some(x),
        },
    ensures
        next_edge(es, x, c) == match r {
            Some(e) => Some(e as int),
            None => None::<int>,
        },
    decreases es.len() - c,
{
    if c < es.len() {
        if es[c].0 != Some(x) {
            lemma_next_edge(es, x, c + 1, r);
        }
    }
}

/// The depth-first walk, in declaration order, that finds which edges close
/// a loop.
///
/// It gives back which edges it set aside, the nodes in the order they
/// finished, and (for the proof) where each node finished. An edge is set
/// aside exactly when it runs against that order, and each one set aside
/// closes a loop of kept edges.
fn search(n: usize, es: &Vec<Ends>) -> (r: (Vec<bool>, Vec<usize>, Ghost<Seq<int>>))
    requires
        forall|e: int| 0 <= e < es@.len() ==> #[trigger] src(es@, e) < n,
        forall|e: int| 0 <= e < es@.len() ==> #[trigger] dst(es@, e) < n,
    ensures
        r.0@.len() == es@.len(),
        r.1@.len() == n,
        r.2@.len() == n,
        forall|x: int| 0 <= x < n ==> 0 <= #[trigger] r.2@[x] < n && r.1@[r.2@[x]] == x,
        forall|i: int| 0 <= i < n ==> (#[trigger] r.1@[i]) < n && r.2@[r.1@[i] as int] == i,
        forall|e: int| 0 <= e < es@.len() && #[trigger] r.0@[e] ==> arc(es@, e) is Some,
        forall|e: int|
            0 <= e < es@.len() && #[trigger] arc(es@, e) is Some ==> (r.0@[e] <==> r.2@[dst(es@, e)]
                >= r.2@[src(es@, e)]),
        forall|e: int|
            0 <= e < es@.len() && #[trigger] r.0@[e] ==> exists|p: Seq<int>|
                runs(es@, r.0@, p, dst(es@, e), src(es@, e)),
        r.0@ == walk_end(n as int, es@).back,
        r.1@ == walk_end(n as int, es@).order,
{
    let ghost m = es@.len() as int;
    let ghost w0 = walk_begin(n as int, m);
    let mut s = Search::new(n, es);
    let mut start: usize = 0;
    let ghost mut k: nat = 0;
    while start < n
        invariant
            s.inv(n as int, es@),
            m == es@.len(),
            w0 == walk_begin(n as int, m),
            s.stack@.len() == 0,
            start <= n,
            forall|x: int| 0 <= x < start ==> #[trigger] s.done@[x],
            s.walk_at(start as int) == walk_run(n as int, es@, w0, k),
        decreases n - start,
    {
        if !s.done[start] {
            let ghost before = s;
            s.root(start, Ghost(n as int), Ghost(es@));
            proof {
                lemma_run_next(n as int, es@, w0, k);
                k = k + 1;
                assert(s.walk_at(start as int) == walk_step(n as int, es@, before.walk_at(start as int)));
            }
            while s.stack.len() > 0
                invariant
                    s.inv(n as int, es@),
                    m == es@.len(),
                    w0 == walk_begin(n as int, m),
                    start < n,
                    forall|x: int| 0 <= x < start ==> #[trigger] s.done@[x],
                    s.done@[start as int] || s.on_path@[start as int],
                    s.walk_at(start as int) == walk_run(n as int, es@, w0, k),
                decreases s.measure(n as int, m).0, s.measure(n as int, m).1, s.measure(n as int, m).2,
            {
                proof {
                    s.lemma_room(n as int, es@);
                    s.lemma_cursors(n as int, es@);
                    lemma_slack_nonneg(s.stack@, m);
                }
                let ghost before = s;
                let top = s.stack.len() - 1;
                let (node, cursor) = s.stack[top];
                let found = next_from(es, node, cursor);
                proof {
                    lemma_next_edge(es@, node, cursor as int, found);
                }
                match found {
                    None => {
                        s.finish(es, Ghost(n as int));
                    },
                    Some(e) => {
                        assert(e < es.len());
                        proof {
                            assert((e + 1) as usize == e + 1);
                            assert(before.stack@.last() == (node, cursor));
                            lemma_slack_top(before.stack@, m, (node, (e + 1) as usize));
                        }
                        match es[e].1 {
                            None => s.pass(es, e, Ghost(n as int)),
                            Some(v) => {
                                assert(dst(es@, e as int) < n);
                                if s.on_path[v] {
                                    s.close(es, e, Ghost(n as int));
                                } else if s.done[v] {
                                    s.pass(es, e, Ghost(n as int));
                                } else {
                                    s.descend(es, e, Ghost(n as int));
                                }
                            },
                        }
                    },
                }
                proof {
                    s.lemma_room(n as int, es@);
                    s.lemma_cursors(n as int, es@);
                    lemma_slack_nonneg(s.stack@, m);
                    assert forall|x: int| 0 <= x < start implies #[trigger] s.done@[x] by {
                        assert(before.done@[x]);
                    }
                    assert(before.stack@.last() == (node, cursor));
                    assert(s.walk_at(start as int) == walk_step(n as int, es@, before.walk_at(start as int)));
                    lemma_run_next(n as int, es@, w0, k);
                    k = k + 1;
                }
            }
        }
        proof {
            assert(!s.on_path@[start as int]);
            assert(s.walk_at(start as int + 1) == walk_step(n as int, es@, s.walk_at(start as int)));
            lemma_run_next(n as int, es@, w0, k);
            k = k + 1;
        }
        start += 1;
    }
    proof {
        lemma_walk_end(n as int, es@, k);
        s.lemma_room(n as int, es@);
        let fin = s.fin@;
        assert forall|x: int| 0 <= x < n implies 0 <= #[trigger] fin[x] < s.order@.len() by {
            assert(s.done@[x]);
        }
        assert forall|i: int, j: int| 0 <= i < n && 0 <= j < n && #[trigger] fin[i] == #[trigger] fin[j] implies i == j by {
            assert(s.done@[i]);
            assert(s.done@[j]);
        }
        lemma_injective_bound(|x: int| fin[x], n as int, s.order@.len() as int);
        let es = es@;
        assert forall|e: int|
            0 <= e < m && #[trigger] arc(es, e) is Some implies (s.back@[e] <==> fin[dst(es, e)]
                >= fin[src(es, e)]) by {
            assert(s.done@[src(es, e)]);
            assert(s.done@[dst(es, e)]);
            if s.back@[e] {
            } else {
                assert(e < s.seen@[src(es, e)]);
            }
        }
        assert forall|e: int| 0 <= e < m && #[trigger] s.back@[e] implies exists|p: Seq<int>|
            runs(es, s.back@, p, dst(es, e), src(es, e)) by {
            assert(runs(es, s.back@, s.paths@[e], dst(es, e), src(es, e)));
        }
    }
    (s.back, s.order, s.fin)
}

/// Whether node `j` holds a track that node `i` may not take: it shares
/// `i`'s rank and is pinned to a lane, or was packed before `i`.
pub open spec fn claims(lanes: Seq<Option<u32>>, rank: Seq<u32>, i: int, j: int) -> bool {
    &&& 0 <= j < lanes.len()
    &&& j != i
    &&& rank[j] == rank[i]
    &&& (lanes[j] is Some || j < i)
}

/// Whether `track` packs each rank in declaration order: a node pinned to a
/// lane takes it; any other takes the smallest track no node it must give way
/// to holds.
pub open spec fn packed(lanes: Seq<Option<u32>>, rank: Seq<u32>, track: Seq<u32>) -> bool {
    &&& track.len() == lanes.len()
    &&& forall|i: int|
        0 <= i < lanes.len() && (#[trigger] lanes[i]) is Some ==> track[i] == lanes[i]->0
    &&& forall|i: int|
        0 <= i < lanes.len() && (#[trigger] lanes[i]) is None ==> {
            &&& forall|j: int| #[trigger] claims(lanes, rank, i, j) ==> track[j] != track[i]
            &&& forall|t: int| 0 <= t < track[i] ==> #[trigger] held(lanes, rank, track, i, t)
        }
}

/// Whether some node that `i` must give way to holds track `t`.
pub open spec fn held(lanes: Seq<Option<u32>>, rank: Seq<u32>, track: Seq<u32>, i: int, t: int) -> bool {
    exists|j: int| #[trigger] claims(lanes, rank, i, j) && track[j] == t
}

/// Whether `track[j] == t` for a node `j` that `i` must give way to.
fn taken(lanes: &Vec<Option<u32>>, rank: &Vec<u32>, track: &Vec<u32>, i: usize, t: u32) -> (r: bool)
    requires
        rank@.len() == lanes@.len(),
        track@.len() == lanes@.len(),
        i < lanes@.len(),
    ensures
        r == held(lanes@, rank@, track@, i as int, t as int),
{
    let mut j: usize = 0;
    while j < lanes.len()
        invariant
            rank@.len() == lanes@.len(),
            track@.len() == lanes@.len(),
            i < lanes@.len(),
            j <= lanes@.len(),
            forall|k: int| 0 <= k < j ==> !(#[trigger] claims(lanes@, rank@, i as int, k) && track@[k] == t),
        decreases lanes@.len() - j,
    {
        if j != i && rank[j] == rank[i] && (lanes[j].is_some() || j < i) && track[j] == t {
            assert(claims(lanes@, rank@, i as int, j as int));
            return true;
        }
        j += 1;
    }
    false
}

/// Where each node sits across its rank.
///
/// Nodes are packed in declaration order, so an agent controls the
/// left-to-right reading by the order it writes them. A node with a lane
/// takes that track and holds it; the others fill in around it.
fn pack(lanes: &Vec<Option<u32>>, rank: &Vec<u32>) -> (track: Vec<u32>)
    requires
        rank@.len() == lanes@.len(),
        lanes@.len() <= u32::MAX,
    ensures
        packed(lanes@, rank@, track@),
        forall|i: int| 0 <= i < lanes@.len() && (#[trigger] lanes@[i]) is None ==> track@[i] < lanes@.len(),
{
    let n = lanes.len();
    let mut track: Vec<u32> = Vec::new();
    let mut i: usize = 0;
    while i < n
        invariant
            n == lanes@.len(),
            i <= n,
            track@.len() == i,
            forall|k: int| 0 <= k < i ==> #[trigger] track@[k] == match lanes@[k] {
                Some(l) => l,
                None => 0u32,
            },
        decreases n - i,
    {
        track.push(
            match lanes[i] {
                Some(l) => l,
                None => 0,
            },
        );
        i += 1;
    }
    let mut ix: usize = 0;
    while ix < n
        invariant
            n == lanes@.len(),
            rank@.len() == n,
            n <= u32::MAX,
            ix <= n,
            track@.len() == n,
            forall|k: int| 0 <= k < n && (#[trigger] lanes@[k]) is Some ==> track@[k] == lanes@[k]->0,
            forall|k: int|
                0 <= k < ix && (#[trigger] lanes@[k]) is None ==> track@[k] < n && {
                    &&& forall|j: int| #[trigger] claims(lanes@, rank@, k, j) ==> track@[j] != track@[k]
                    &&& forall|t: int|
                        0 <= t < track@[k] ==> #[trigger] held(lanes@, rank@, track@, k, t)
                },
        decreases n - ix,
    {
        if lanes[ix].is_none() {
            let mut lane: u32 = 0;
            while taken(lanes, rank, &track, ix, lane)
                invariant
                    n == lanes@.len(),
                    rank@.len() == n,
                    track@.len() == n,
                    n <= u32::MAX,
                    ix < n,
                    lane < n,
                    forall|t: int|
                        0 <= t < lane ==> #[trigger] held(lanes@, rank@, track@, ix as int, t),
                decreases n - lane,
            {
                proof {
                    let f = |j: int|
                        {
                            let k = if j < ix {
                                j
                            } else {
                                j + 1
                            };
                            if claims(lanes@, rank@, ix as int, k) {
                                track@[k] as int
                            } else {
                                -1
                            }
                        };
                    assert forall|t: int| 0 <= t < lane + 1 implies #[trigger] hit(f, n - 1, t) by {
                        assert(held(lanes@, rank@, track@, ix as int, t));
                        assert(held(lanes@, rank@, track@, ix as int, t));
                    let j = choose|j: int| #[trigger] claims(lanes@, rank@, ix as int, j) && track@[j] == t;
                        let w = if j < ix {
                            j
                        } else {
                            j - 1
                        };
                        assert(f(w) == t);
                    }
                    lemma_cover_bound(f, n - 1, lane + 1);
                }
                lane += 1;
            }
            proof {
                let f = |j: int|
                    {
                        let k = if j < ix {
                            j
                        } else {
                            j + 1
                        };
                        if claims(lanes@, rank@, ix as int, k) {
                            track@[k] as int
                        } else {
                            -1
                        }
                    };
                assert forall|t: int| 0 <= t < lane implies #[trigger] hit(f, n - 1, t) by {
                    assert(held(lanes@, rank@, track@, ix as int, t));
                    let j = choose|j: int| #[trigger] claims(lanes@, rank@, ix as int, j) && track@[j] == t;
                    let w = if j < ix {
                        j
                    } else {
                        j - 1
                    };
                    assert(f(w) == t);
                }
                lemma_cover_bound(f, n - 1, lane as int);
            }
            let ghost before = track@;
            track.set(ix, lane);
            proof {
                assert forall|k: int| #[trigger] claims(lanes@, rank@, ix as int, k) implies track@[k] == before[k] by {}
                assert forall|k: int|
                    0 <= k <= ix && (#[trigger] lanes@[k]) is None implies track@[k] < n && {
                        &&& forall|j: int| #[trigger] claims(lanes@, rank@, k, j) ==> track@[j] != track@[k]
                        &&& forall|t: int|
                            0 <= t < track@[k] ==> #[trigger] held(lanes@, rank@, track@, k, t)
                    } by {
                    if k < ix {
                        assert forall|j: int| #[trigger] claims(lanes@, rank@, k, j) implies track@[j] != track@[k] by {
                            assert(j != ix as int);
                        }
                        assert forall|t: int| 0 <= t < track@[k] implies #[trigger] held(lanes@, rank@, track@, k, t) by {
                            assert(held(lanes@, rank@, before, k, t));
                            let j = choose|j: int| #[trigger] claims(lanes@, rank@, k, j) && before[j] == t;
                            assert(j != ix as int);
                            assert(track@[j] == t);
                        }
                    } else {
                        assert forall|t: int| 0 <= t < track@[k] implies #[trigger] held(lanes@, rank@, track@, k, t) by {
                            assert(held(lanes@, rank@, before, k, t));
                            let j = choose|j: int| #[trigger] claims(lanes@, rank@, k, j) && before[j] == t;
                            assert(track@[j] == t);
                        }
                    }
                }
            }
        }
        ix += 1;
    }
    track
}

/// Whether some kept arrow into `v` comes from a node exactly one rank
/// before it.
#[verifier::opaque]
pub open spec fn fed(es: Seq<Ends>, back: Seq<bool>, rank: Seq<u32>, v: int) -> bool {
    exists|e: int|
        0 <= e < es.len() && #[trigger] arc(es, e) is Some && !back[e] && dst(es, e) == v && rank[src(
            es,
            e,
        )] + 1 == rank[v]
}

/// Whether `rank` puts every node one past the furthest node pointing at it
/// along a kept arrow: every kept arrow runs with the flow, and a node that is
/// not first is held where it is by one that points at it.
pub open spec fn ranked(es: Seq<Ends>, back: Seq<bool>, rank: Seq<u32>) -> bool {
    &&& forall|e: int|
        0 <= e < es.len() && #[trigger] arc(es, e) is Some && !back[e] ==> rank[dst(es, e)] >= rank[src(
            es,
            e,
        )] + 1
    &&& forall|v: int| 0 <= v < rank.len() && #[trigger] rank[v] > 0 ==> fed(es, back, rank, v)
}

/// How far along the flow each node sits.
///
/// The nodes are taken latest-finished first, so everything pointing at a
/// node along a kept arrow is placed before it.
fn ranks(
    n: usize,
    es: &Vec<Ends>,
    back: &Vec<bool>,
    order: &Vec<usize>,
    Ghost(fin): Ghost<Seq<int>>,
) -> (rank: Vec<u32>)
    requires
        n <= u32::MAX,
        back@.len() == es@.len(),
        order@.len() == n,
        fin.len() == n,
        forall|x: int| 0 <= x < n ==> 0 <= #[trigger] fin[x] < n && order@[fin[x]] == x,
        forall|i: int| 0 <= i < n ==> (#[trigger] order@[i]) < n && fin[order@[i] as int] == i,
        forall|e: int| 0 <= e < es@.len() ==> #[trigger] src(es@, e) < n,
        forall|e: int| 0 <= e < es@.len() ==> #[trigger] dst(es@, e) < n,
        forall|e: int|
            0 <= e < es@.len() && #[trigger] arc(es@, e) is Some ==> (back@[e] <==> fin[dst(es@, e)]
                >= fin[src(es@, e)]),
    ensures
        rank@.len() == n,
        ranked(es@, back@, rank@),
        forall|x: int| 0 <= x < n ==> #[trigger] rank@[x] < n,
{
    let m = es.len();
    let mut rank: Vec<u32> = Vec::new();
    let mut k: usize = 0;
    while k < n
        invariant
            k <= n,
            rank@ == Seq::new(k as nat, |i: int| 0u32),
        decreases n - k,
    {
        rank.push(0);
        k += 1;
    }
    let mut i: usize = n;
    while i > 0
        invariant
            n <= u32::MAX,
            m == es@.len(),
            back@.len() == m,
            order@.len() == n,
            fin.len() == n,
            forall|x: int| 0 <= x < n ==> 0 <= #[trigger] fin[x] < n && order@[fin[x]] == x,
            forall|j: int| 0 <= j < n ==> (#[trigger] order@[j]) < n && fin[order@[j] as int] == j,
            forall|e: int| 0 <= e < m ==> #[trigger] src(es@, e) < n,
            forall|e: int| 0 <= e < m ==> #[trigger] dst(es@, e) < n,
            forall|e: int|
                0 <= e < m && #[trigger] arc(es@, e) is Some ==> (back@[e] <==> fin[dst(es@, e)]
                    >= fin[src(es@, e)]),
            i <= n,
            rank@.len() == n,
            forall|x: int| 0 <= x < n && fin[x] < i ==> #[trigger] rank@[x] == 0,
            forall|x: int| 0 <= x < n && fin[x] >= i ==> #[trigger] rank@[x] <= n - 1 - fin[x],
            forall|x: int| 0 <= x < n && fin[x] >= i && #[trigger] rank@[x] > 0 ==> fed(es@, back@, rank@, x),
            forall|e: int|
                0 <= e < m && #[trigger] arc(es@, e) is Some && !back@[e] && fin[dst(es@, e)] >= i
                    ==> rank@[dst(es@, e)] >= rank@[src(es@, e)] + 1,
        decreases i,
    {
        i -= 1;
        let x = order[i];
        let mut best: u32 = 0;
        let mut e: usize = 0;
        while e < m
            invariant
                n <= u32::MAX,
                m == es@.len(),
                back@.len() == m,
                fin.len() == n,
                rank@.len() == n,
                forall|y: int| 0 <= y < n ==> 0 <= #[trigger] fin[y] < n,
                forall|e2: int| 0 <= e2 < m ==> #[trigger] src(es@, e2) < n,
                forall|e2: int| 0 <= e2 < m ==> #[trigger] dst(es@, e2) < n,
                forall|e2: int|
                    0 <= e2 < m && #[trigger] arc(es@, e2) is Some ==> (back@[e2] <==> fin[dst(es@, e2)]
                        >= fin[src(es@, e2)]),
                forall|y: int| 0 <= y < n && fin[y] > i ==> #[trigger] rank@[y] <= n - 1 - fin[y],
                x < n,
                fin[x as int] == i,
                e <= m,
                best <= n - 1 - i,
                forall|e2: int|
                    0 <= e2 < e && #[trigger] arc(es@, e2) is Some && !back@[e2] && dst(es@, e2) == x
                        ==> best >= rank@[src(es@, e2)] + 1,
                best > 0 ==> exists|e2: int|
                    0 <= e2 < e && #[trigger] arc(es@, e2) is Some && !back@[e2] && dst(es@, e2) == x
                        && rank@[src(es@, e2)] + 1 == best,
            decreases m - e,
        {
            if !back[e] {
                match es[e] {
                    (Some(u), Some(v)) => {
                        if v == x {
                            assert(arc(es@, e as int) is Some);
                            assert(src(es@, e as int) == u);
                            let c = rank[u] + 1;
                            if c > best {
                                best = c;
                            }
                        }
                    },
                    _ => {},
                }
            }
            e += 1;
        }
        let ghost before = rank@;
        rank.set(x, best);
        proof {
            reveal(fed);
            assert forall|y: int| 0 <= y < n && fin[y] >= i && #[trigger] rank@[y] > 0 implies fed(es@, back@, rank@, y) by {
                if y == x as int {
                    let e2 = choose|e2: int|
                        0 <= e2 < m && #[trigger] arc(es@, e2) is Some && !back@[e2] && dst(es@, e2) == x
                            && before[src(es@, e2)] + 1 == best;
                    assert(src(es@, e2) != x as int);
                    assert(rank@[src(es@, e2)] + 1 == rank@[y]);
                } else {
                    assert(before[y] > 0);
                    assert(fed(es@, back@, before, y));
                    let e2 = choose|e2: int|
                        0 <= e2 < m && #[trigger] arc(es@, e2) is Some && !back@[e2] && dst(es@, e2) == y
                            && before[src(es@, e2)] + 1 == before[y];
                    assert(src(es@, e2) != x as int);
                    assert(rank@[src(es@, e2)] + 1 == rank@[y]);
                }
            }
            assert forall|e2: int|
                0 <= e2 < m && #[trigger] arc(es@, e2) is Some && !back@[e2] && fin[dst(es@, e2)] >= i
                    implies rank@[dst(es@, e2)] >= rank@[src(es@, e2)] + 1 by {
                assert(src(es@, e2) != x as int);
            }
        }
    }
    rank
}

/// Where one node ended up.
#[derive(Debug, Clone, Copy, PartialEq, Eq, Structural)]
pub struct Placed {
    /// Index into [`Diagram::nodes`].
    pub node_ix: usize,
    /// Column, from 0.
    pub col: u32,
    /// Row, from 0.
    pub row: u32,
}

/// Where everything ended up.
#[derive(Debug, Clone, PartialEq, Eq)]
pub struct Layout {
    /// One entry per node, in declaration order.
    pub placed: Vec<Placed>,
    /// Columns used, at least one.
    pub cols: u32,
    /// Rows used, at least one.
    pub rows: u32,
    /// Indices into [`Diagram::edges`] for edges that run backwards against
    /// the flow: one edge of each cycle, set aside so the rest can be ranked.
    pub back_edges: Vec<usize>,
}

/// A position among the nodes, as an index.
pub open spec fn at_index(o: Option<int>) -> Option<usize> {
    match o {
        Some(i) => Some(i as usize),
        None => None,
    }
}

/// Whether `fin` numbers the `n` nodes one to one, and `back` marks exactly
/// the joined edges that run against that numbering.
pub open spec fn ordered(es: Seq<Ends>, back: Seq<bool>, fin: Seq<int>, n: int) -> bool {
    &&& fin.len() == n
    &&& forall|x: int| 0 <= x < n ==> 0 <= #[trigger] fin[x] < n
    &&& forall|x: int, y: int| 0 <= x < n && 0 <= y < n && #[trigger] fin[x] == #[trigger] fin[y] ==> x == y
    &&& forall|e: int| 0 <= e < es.len() && #[trigger] back[e] ==> arc(es, e) is Some
    &&& forall|e: int|
        0 <= e < es.len() && #[trigger] arc(es, e) is Some ==> (back[e] <==> fin[dst(es, e)] >= fin[src(
            es,
            e,
        )])
}

/// A kept edge that holds `v` at its rank: it comes from a node one rank
/// before, which the walk finished after `v`.
proof fn lemma_feeder(es: Seq<Ends>, back: Seq<bool>, fin: Seq<int>, n: int, r: Seq<u32>, v: int) -> (e: int)
    requires
        ordered(es, back, fin, n),
        forall|e: int| 0 <= e < es.len() && #[trigger] arc(es, e) is Some ==> src(es, e) < n && dst(es, e) < n,
        r.len() == n,
        ranked(es, back, r),
        0 <= v < n,
        r[v] > 0,
    ensures
        0 <= e < es.len(),
        arc(es, e) is Some,
        !back[e],
        dst(es, e) == v,
        r[src(es, e)] + 1 == r[v],
        0 <= src(es, e) < n,
        fin[v] < fin[src(es, e)],
{
    reveal(fed);
    assert(fed(es, back, r, v));
    let e = choose|e: int|
        0 <= e < es.len() && #[trigger] arc(es, e) is Some && !back[e] && dst(es, e) == v
            && r[src(es, e)] + 1 == r[v];
    e
}

/// Ranks that meet [`ranked`] over the same kept edges agree at `v`.
#[verifier::spinoff_prover]
proof fn lemma_rank_at(es: Seq<Ends>, back: Seq<bool>, fin: Seq<int>, n: int, r1: Seq<u32>, r2: Seq<u32>, v: int)
    requires
        ordered(es, back, fin, n),
        forall|e: int| 0 <= e < es.len() && #[trigger] arc(es, e) is Some ==> src(es, e) < n && dst(es, e) < n,
        r1.len() == n,
        r2.len() == n,
        ranked(es, back, r1),
        ranked(es, back, r2),
        0 <= v < n,
    ensures
        r1[v] == r2[v],
    decreases n - fin[v],
{
    if r1[v] > 0 {
        let e = lemma_feeder(es, back, fin, n, r1, v);
        lemma_rank_at(es, back, fin, n, r1, r2, src(es, e));
        assert(r2[dst(es, e)] >= r2[src(es, e)] + 1);
    }
    if r2[v] > 0 {
        let e = lemma_feeder(es, back, fin, n, r2, v);
        lemma_rank_at(es, back, fin, n, r1, r2, src(es, e));
        assert(r1[dst(es, e)] >= r1[src(es, e)] + 1);
    }
}

/// Tracks that meet [`packed`] for the same lanes and ranks agree at `i`.
proof fn lemma_track_at(lanes: Seq<Option<u32>>, rank: Seq<u32>, t1: Seq<u32>, t2: Seq<u32>, i: int)
    requires
        packed(lanes, rank, t1),
        packed(lanes, rank, t2),
        0 <= i < lanes.len(),
    ensures
        t1[i] == t2[i],
    decreases i,
{
    if lanes[i] is None {
        assert forall|j: int| #[trigger] claims(lanes, rank, i, j) implies t1[j] == t2[j] by {
            if lanes[j] is None {
                lemma_track_at(lanes, rank, t1, t2, j);
            }
        }
        if t1[i] < t2[i] {
            assert(held(lanes, rank, t2, i, t1[i] as int));
            let j = choose|j: int| #[trigger] claims(lanes, rank, i, j) && t2[j] == t1[i];
            assert(t1[j] == t1[i]);
        }
        if t2[i] < t1[i] {
            assert(held(lanes, rank, t1, i, t2[i] as int));
            let j = choose|j: int| #[trigger] claims(lanes, rank, i, j) && t1[j] == t2[i];
            assert(t2[j] == t2[i]);
        }
    }
}

/// Two increasing lists of the same numbers are the same list.
proof fn lemma_increasing_unique(a: Seq<usize>, b: Seq<usize>)
    requires
        forall|i: int, j: int| 0 <= i < j < a.len() ==> a[i] < a[j],
        forall|i: int, j: int| 0 <= i < j < b.len() ==> b[i] < b[j],
        forall|x: usize| a.contains(x) <==> b.contains(x),
    ensures
        a == b,
    decreases a.len(),
{
    if a.len() == 0 {
        if b.len() > 0 {
            assert(b.contains(b[0]));
        }
        assert(a =~= b);
    } else {
        assert(a.contains(a[0]));
        let k = choose|k: int| 0 <= k < b.len() && b[k] == a[0];
        assert(b.contains(b[0]));
        let h = choose|h: int| 0 <= h < a.len() && a[h] == b[0];
        assert(a[0] == b[0]);
        let a2 = a.drop_first();
        let b2 = b.drop_first();
        assert forall|x: usize| a2.contains(x) <==> b2.contains(x) by {
            if a2.contains(x) {
                let i = choose|i: int| 0 <= i < a2.len() && a2[i] == x;
                assert(a.contains(x) && a[i + 1] == x);
                let j = choose|j: int| 0 <= j < b.len() && b[j] == x;
                assert(j != 0);
                assert(b2[j - 1] == x);
            }
            if b2.contains(x) {
                let i = choose|i: int| 0 <= i < b2.len() && b2[i] == x;
                assert(b.contains(x) && b[i + 1] == x);
                let j = choose|j: int| 0 <= j < a.len() && a[j] == x;
                assert(j != 0);
                assert(a2[j - 1] == x);
            }
        }
        lemma_increasing_unique(a2, b2);
        assert(a =~= b) by {
            assert(a.len() == b.len());
            assert forall|i: int| 0 <= i < a.len() implies a[i] == b[i] by {
                if i > 0 {
                    assert(a[i] == a2[i - 1]);
                    assert(b[i] == b2[i - 1]);
                }
            }
        }
    }
}

/// A layout depends on nothing but the nodes' lanes, which nodes the edges
/// join, and the flow: a node's role, weight, label or note, an edge's label
/// or line, the title, the clusters and the flows never move a node.
///
/// So two diagrams that agree on those are laid out the same, and a diagram
/// is laid out one way only.
pub proof fn lemma_only_the_graph_places(d1: Diagram, d2: Diagram, l1: Layout, l2: Layout)
    requires
        d1.ends_of() == d2.ends_of(),
        d1.lanes() == d2.lanes(),
        d1.flow == d2.flow,
        d1.laid_out(l1),
        d2.laid_out(l2),
    ensures
        l1.placed@ == l2.placed@,
        l1.cols == l2.cols,
        l1.rows == l2.rows,
        l1.back_edges@ == l2.back_edges@,
{
    let es = d1.ends_of();
    let n = d1.nodes@.len() as int;
    assert(d1.lanes().len() == d2.lanes().len());
    assert(d2.nodes@.len() == n);
    assert(d1.edges@.len() == d2.edges@.len()) by {
        assert(es.len() == d2.ends_of().len());
    }
    assert(d1.set_aside(l1) == d2.set_aside(l2));
    let back = d1.set_aside(l1);
    assert forall|x: usize| l1.back_edges@.contains(x) <==> l2.back_edges@.contains(x) by {
        if l1.back_edges@.contains(x) {
            let k = choose|k: int| 0 <= k < l1.back_edges@.len() && l1.back_edges@[k] == x;
            assert(x < d1.edges@.len());
            assert(back[x as int] == d2.set_aside(l2)[x as int]);
        }
        if l2.back_edges@.contains(x) {
            let k = choose|k: int| 0 <= k < l2.back_edges@.len() && l2.back_edges@[k] == x;
            assert(x < d2.edges@.len());
            assert(back[x as int] == d2.set_aside(l2)[x as int]);
        }
    }
    lemma_increasing_unique(l1.back_edges@, l2.back_edges@);
    let fin = choose|fin: Seq<int>| ordered(es, back, fin, n);
    assert forall|e: int| 0 <= e < es.len() && #[trigger] arc(es, e) is Some implies src(es, e) < n && dst(es, e) < n by {
        lemma_last_named(d1.nodes@, d1.edges@[e].from@);
        lemma_last_named(d1.nodes@, d1.edges@[e].to@);
    }
    let r1 = d1.rank_of(l1);
    let r2 = d2.rank_of(l2);
    assert forall|v: int| 0 <= v < n implies r1[v] == r2[v] by {
        lemma_rank_at(es, back, fin, n, r1, r2, v);
    }
    assert(r1 =~= r2);
    let t1 = d1.track_of(l1);
    let t2 = d2.track_of(l2);
    assert forall|i: int| 0 <= i < n implies t1[i] == t2[i] by {
        lemma_track_at(d1.lanes(), r1, t1, t2, i);
    }
    assert forall|i: int| 0 <= i < n implies l1.placed@[i] == l2.placed@[i] by {
        assert(r1[i] == r2[i] && t1[i] == t2[i]);
        assert(l1.placed@[i].node_ix == l2.placed@[i].node_ix);
    }
    assert(l1.placed@ =~= l2.placed@);
    if n > 0 {
        let i = choose|i: int| 0 <= i < l1.placed@.len() && (#[trigger] l1.placed@[i]).col + 1 == l1.cols;
        let j = choose|j: int| 0 <= j < l2.placed@.len() && (#[trigger] l2.placed@[j]).col + 1 == l2.cols;
        assert(l1.placed@[j].col < l1.cols);
        assert(l2.placed@[i].col < l2.cols);
        let a = choose|i: int| 0 <= i < l1.placed@.len() && (#[trigger] l1.placed@[i]).row + 1 == l1.rows;
        let b = choose|j: int| 0 <= j < l2.placed@.len() && (#[trigger] l2.placed@[j]).row + 1 == l2.rows;
        assert(l1.placed@[b].row < l1.rows);
        assert(l2.placed@[a].row < l2.rows);
    }
}

impl Diagram {
    /// Each edge's ends by position: the node each of its ids names.
    pub open spec fn ends_of(self) -> Seq<Ends> {
        Seq::new(
            self.edges@.len(),
            |e: int|
                (
                    at_index(last_named(self.nodes@, self.edges@[e].from@)),
                    at_index(last_named(self.nodes@, self.edges@[e].to@)),
                ),
        )
    }

    /// The lane each node is pinned to, if any.
    pub open spec fn lanes(self) -> Seq<Option<u32>> {
        Seq::new(self.nodes@.len(), |i: int| self.nodes@[i].lane)
    }

    /// How far along the flow each node was placed.
    pub open spec fn rank_of(self, l: Layout) -> Seq<u32> {
        Seq::new(
            l.placed@.len(),
            |i: int|
                match self.flow {
                    Direction::Down => l.placed@[i].row,
                    Direction::Right => l.placed@[i].col,
                },
        )
    }

    /// Where across the flow each node was placed.
    pub open spec fn track_of(self, l: Layout) -> Seq<u32> {
        Seq::new(
            l.placed@.len(),
            |i: int|
                match self.flow {
                    Direction::Down => l.placed@[i].col,
                    Direction::Right => l.placed@[i].row,
                },
        )
    }

    /// Which edges a layout set aside.
    pub open spec fn set_aside(self, l: Layout) -> Seq<bool> {
        Seq::new(self.edges@.len(), |e: int| l.back_edges@.contains(e as usize))
    }

    /// Whether `l` places this diagram's nodes as [`Diagram::layout`] does.
    ///
    /// One entry per node, in declaration order, inside a grid no bigger
    /// than it needs. The edges set aside, listed in increasing order, are
    /// exactly those that the depth-first walk of [`walk_end`] closes a loop
    /// with: walks start from each node not yet reached in declaration order,
    /// and follow each node's edges in declaration order. Each of them closes
    /// a loop of kept edges, and the kept edges run against the order in which
    /// the walk finished the nodes. Every node sits one rank past the furthest
    /// node that points at it along a kept edge, and across the flow each rank
    /// is packed in declaration order around the nodes pinned to a lane.
    pub open spec fn laid_out(self, l: Layout) -> bool {
        &&& l.placed@.len() == self.nodes@.len()
        &&& forall|i: int| 0 <= i < l.placed@.len() ==> (#[trigger] l.placed@[i]).node_ix == i
        &&& forall|i: int|
            0 <= i < l.placed@.len() ==> (#[trigger] l.placed@[i]).col < l.cols && l.placed@[i].row < l.rows
        &&& l.placed@.len() == 0 ==> l.cols == 1 && l.rows == 1
        &&& l.placed@.len() > 0 ==> exists|i: int| 0 <= i < l.placed@.len() && (#[trigger] l.placed@[i]).col + 1 == l.cols
        &&& l.placed@.len() > 0 ==> exists|i: int| 0 <= i < l.placed@.len() && (#[trigger] l.placed@[i]).row + 1 == l.rows
        &&& forall|a: int, b: int|
            0 <= a < b < l.back_edges@.len() ==> l.back_edges@[a] < l.back_edges@[b]
        &&& forall|k: int| 0 <= k < l.back_edges@.len() ==> #[trigger] l.back_edges@[k] < self.edges@.len()
        &&& self.set_aside(l) == walk_end(self.nodes@.len() as int, self.ends_of()).back
        &&& exists|fin: Seq<int>| ordered(self.ends_of(), self.set_aside(l), fin, self.nodes@.len() as int)
        &&& forall|e: int|
            0 <= e < self.edges@.len() && #[trigger] self.set_aside(l)[e] ==> exists|p: Seq<int>|
                runs(self.ends_of(), self.set_aside(l), p, dst(self.ends_of(), e), src(self.ends_of(), e))
        &&& ranked(self.ends_of(), self.set_aside(l), self.rank_of(l))
        &&& packed(self.lanes(), self.rank_of(l), self.track_of(l))
    }

    /// Node id to its position: each edge's ends, looked up once.
    fn index(&self) -> (es: Vec<Ends>)
        ensures
            es@ == self.ends_of(),
            forall|e: int| 0 <= e < es@.len() ==> #[trigger] src(es@, e) < self.nodes@.len(),
            forall|e: int| 0 <= e < es@.len() ==> #[trigger] dst(es@, e) < self.nodes@.len(),
    {
        let mut es: Vec<Ends> = Vec::new();
        let mut e: usize = 0;
        while e < self.edges.len()
            invariant
                e <= self.edges@.len(),
                es@ == self.ends_of().take(e as int),
            decreases self.edges@.len() - e,
        {
            let from = position(&self.nodes, &self.edges[e].from);
            let to = position(&self.nodes, &self.edges[e].to);
            es.push((from, to));
            proof {
                assert(es@ =~= self.ends_of().take(e + 1));
            }
            e += 1;
        }
        proof {
            assert(es@ =~= self.ends_of());
            assert forall|e: int| 0 <= e < es@.len() implies #[trigger] src(es@, e) < self.nodes@.len() by {
                lemma_last_named(self.nodes@, self.edges@[e].from@);
            }
            assert forall|e: int| 0 <= e < es@.len() implies #[trigger] dst(es@, e) < self.nodes@.len() by {
                lemma_last_named(self.nodes@, self.edges@[e].to@);
            }
        }
        es
    }

    /// Place every node on a grid.
    ///
    /// Rank comes from the edges: a node sits one step past the furthest
    /// thing pointing at it, so an arrow always runs with the flow. Nodes
    /// sharing a rank are packed across it in declaration order, except where
    /// a [`Node::lane`] pins one. An edge that closes a cycle is set aside and
    /// reported, so that the rest can be ranked.
    pub fn layout(&self) -> (l: Layout)
        requires
            self.nodes@.len() <= u32::MAX,
            forall|i: int| 0 <= i < self.nodes@.len() ==> #[trigger] self.nodes@[i].lane != Some(u32::MAX),
        ensures
            self.laid_out(l),
    {
        let n = self.nodes.len();
        let es = self.index();
        let (back, order, fin) = search(n, &es);
        let rank = ranks(n, &es, &back, &order, fin);
        let mut lanes: Vec<Option<u32>> = Vec::new();
        let mut i: usize = 0;
        while i < n
            invariant
                n == self.nodes@.len(),
                i <= n,
                lanes@ == self.lanes().take(i as int),
            decreases n - i,
        {
            lanes.push(self.nodes[i].lane);
            proof {
                assert(lanes@ =~= self.lanes().take(i + 1));
            }
            i += 1;
        }
        assert(lanes@ =~= self.lanes());
        let track = pack(&lanes, &rank);
        let mut back_edges: Vec<usize> = Vec::new();
        let mut e: usize = 0;
        while e < es.len()
            invariant
                e <= es@.len(),
                back@.len() == es@.len(),
                forall|a: int, b: int| 0 <= a < b < back_edges@.len() ==> back_edges@[a] < back_edges@[b],
                forall|k: int| 0 <= k < back_edges@.len() ==> #[trigger] back_edges@[k] < e,
                forall|d: int| 0 <= d < e ==> (#[trigger] back@[d] <==> back_edges@.contains(d as usize)),
            decreases es@.len() - e,
        {
            if back[e] {
                let ghost prev = back_edges@;
                back_edges.push(e);
                proof {
                    assert forall|d: int| 0 <= d < e implies (#[trigger] back@[d] <==> back_edges@.contains(d as usize)) by {
                        if prev.contains(d as usize) {
                            let k = choose|k: int| 0 <= k < prev.len() && prev[k] == d as usize;
                            assert(back_edges@[k] == d as usize);
                        }
                        if back_edges@.contains(d as usize) {
                            let k = choose|k: int| 0 <= k < back_edges@.len() && back_edges@[k] == d as usize;
                            if k < prev.len() {
                                assert(prev[k] == d as usize);
                            }
                        }
                    }
                    assert(back_edges@[back_edges@.len() - 1] == e);
                }
            } else {
                proof {
                    assert(!back_edges@.contains(e));
                }
            }
            e += 1;
        }
        let mut placed: Vec<Placed> = Vec::new();
        let mut most_col: u32 = 0;
        let mut most_row: u32 = 0;
        let mut ix: usize = 0;
        while ix < n
            invariant
                n == self.nodes@.len(),
                n <= u32::MAX,
                rank@.len() == n,
                track@.len() == n,
                forall|x: int| 0 <= x < n ==> #[trigger] rank@[x] < n,
                packed(lanes@, rank@, track@),
                lanes@ == self.lanes(),
                forall|x: int| 0 <= x < n && (#[trigger] lanes@[x]) is None ==> track@[x] < n,
                forall|x: int| 0 <= x < n ==> #[trigger] self.nodes@[x].lane != Some(u32::MAX),
                ix <= n,
                placed@.len() == ix,
                forall|k: int| 0 <= k < ix ==> (#[trigger] placed@[k]).node_ix == k && match self.flow {
                    Direction::Down => placed@[k].col == track@[k] && placed@[k].row == rank@[k],
                    Direction::Right => placed@[k].col == rank@[k] && placed@[k].row == track@[k],
                },
                most_col < u32::MAX,
                most_row < u32::MAX,
                forall|k: int| 0 <= k < ix ==> (#[trigger] placed@[k]).col <= most_col && placed@[k].row <= most_row,
                ix == 0 ==> most_col == 0 && most_row == 0,
                ix > 0 ==> exists|k: int| 0 <= k < ix && (#[trigger] placed@[k]).col == most_col,
                ix > 0 ==> exists|k: int| 0 <= k < ix && (#[trigger] placed@[k]).row == most_row,
            decreases n - ix,
        {
            proof {
                assert(lanes@[ix as int] == self.nodes@[ix as int].lane);
                if lanes@[ix as int] is Some {
                    assert(track@[ix as int] == lanes@[ix as int]->0);
                }
            }
            let (col, row) = match self.flow {
                Direction::Down => (track[ix], rank[ix]),
                Direction::Right => (rank[ix], track[ix]),
            };
            let ghost prev = placed@;
            let ghost (prev_col, prev_row) = (most_col, most_row);
            placed.push(Placed { node_ix: ix, col, row });
            if ix == 0 || col > most_col {
                most_col = col;
            }
            if ix == 0 || row > most_row {
                most_row = row;
            }
            proof {
                assert forall|k: int| 0 <= k < ix implies placed@[k] == prev[k] by {}
                if most_col != col {
                    let k = choose|k: int| 0 <= k < ix && (#[trigger] prev[k]).col == prev_col;
                    assert(placed@[k].col == most_col);
                } else {
                    assert(placed@[ix as int].col == most_col);
                }
                if most_row != row {
                    let k = choose|k: int| 0 <= k < ix && (#[trigger] prev[k]).row == prev_row;
                    assert(placed@[k].row == most_row);
                } else {
                    assert(placed@[ix as int].row == most_row);
                }
            }
            ix += 1;
        }
        let l = Layout { placed, cols: most_col + 1, rows: most_row + 1, back_edges };
        proof {
            assert(self.set_aside(l) =~= back@);
            assert(self.rank_of(l) =~= rank@);
            assert(self.track_of(l) =~= track@);
            assert(ordered(self.ends_of(), back@, fin@, n as int));
            assert(forall|e: int|
                0 <= e < self.edges@.len() && #[trigger] back@[e] ==> exists|p: Seq<int>|
                    runs(self.ends_of(), back@, p, dst(self.ends_of(), e), src(self.ends_of(), e)));
            assert(self.set_aside(l) == walk_end(n as int, self.ends_of()).back);
        }
        l
    }
}

} // verus!
