use vstd::prelude::*;

use crate::chapter::{new_id, opt_view, uuid_text, Chapter};
use crate::text::{string_of, to_chars, trim, trim_chars};
use crate::time::{now, Timestamp};

verus! {

/// The kind of a manuscript node.
#[derive(Clone, Copy, PartialEq, Eq, Debug, Structural)]
pub enum NodeType {
    Book,
    Part,
    Chapter,
    Scene,
}

/// The editing status of a node.
#[derive(Clone, Copy, PartialEq, Eq, Debug, Structural)]
pub enum ChapterStatus {
    Draft,
    Revised,
    Final,
    Trash,
}

impl Default for ChapterStatus {
    fn default() -> (r: ChapterStatus)
        ensures
            r == ChapterStatus::Draft,
    {
        ChapterStatus::Draft
    }
}

/// Descriptive data of a project, kept apart from its tree.
#[derive(Clone, Debug)]
pub struct ProjectMetadata {
    pub title: String,
    pub author: String,
    pub genre: String,
    pub word_count_target: Option<u64>,
    pub deadline: Option<String>,
    pub created_at: Timestamp,
    pub modified_at: Timestamp,
}

/// One node of the manuscript tree; `children` are node ids, in reading order.
#[derive(Clone, Debug)]
pub struct ManuscriptNode {
    pub id: String,
    pub title: String,
    pub node_type: NodeType,
    pub children: Vec<String>,
    pub status: ChapterStatus,
    pub mood: Option<String>,
    pub pov: Option<String>,
    pub word_count: u64,
}

/// The manuscript tree: the root's id, the nodes keyed by their ids, and a flat list of
/// top-level ids kept apart from the children lists.
#[derive(Clone, Debug)]
pub struct ManuscriptStructure {
    pub root: String,
    pub nodes: Vec<ManuscriptNode>,
    pub order: Vec<String>,
}

/// A project: where it lives, its metadata and its tree.
#[derive(Clone, Debug)]
pub struct Project {
    pub path: String,
    pub metadata: ProjectMetadata,
    pub structure: ManuscriptStructure,
}

/// What a front end is shown of an open project.
#[derive(Clone, Debug)]
pub struct ProjectState {
    pub path: String,
    pub metadata: ProjectMetadata,
    pub structure: ManuscriptStructure,
    pub total_word_count: u64,
}

/// The failures of project operations.
#[derive(Clone, Debug)]
pub enum ProjectError {
    Io(String),
    Json(String),
    TomlSer(String),
    TomlDe(String),
    NotFound(String),
    ChapterNotFound(String),
}

impl ProjectError {
    /// The message that describes the error.
    pub fn message(&self) -> (r: String)
        ensures
            self matches ProjectError::Io(m) ==> r@ == "IO error: "@ + m@,
            self matches ProjectError::Json(m) ==> r@ == "JSON error: "@ + m@,
            self matches ProjectError::TomlSer(m) ==> r@ == "TOML serialization error: "@ + m@,
            self matches ProjectError::TomlDe(m) ==> r@ == "TOML deserialization error: "@ + m@,
            self matches ProjectError::NotFound(m) ==> r@ == "Project not found: "@ + m@,
            self matches ProjectError::ChapterNotFound(m) ==> r@ == "Chapter not found: "@ + m@,
    {
        let (prefix, m) = match self {
            ProjectError::Io(m) => ("IO error: ", m),
            ProjectError::Json(m) => ("JSON error: ", m),
            ProjectError::TomlSer(m) => ("TOML serialization error: ", m),
            ProjectError::TomlDe(m) => ("TOML deserialization error: ", m),
            ProjectError::NotFound(m) => ("Project not found: ", m),
            ProjectError::ChapterNotFound(m) => ("Chapter not found: ", m),
        };
        let mut s = String::from_str(prefix);
        s.append(m.as_str());
        s
    }
}

/// A node as plain values.
pub struct NodeView {
    pub id: Seq<char>,
    pub title: Seq<char>,
    pub node_type: NodeType,
    pub children: Seq<Seq<char>>,
    pub status: ChapterStatus,
    pub mood: Option<Seq<char>>,
    pub pov: Option<Seq<char>>,
    pub word_count: u64,
}

/// The character sequences of a list of ids.
pub open spec fn id_seq(v: Seq<String>) -> Seq<Seq<char>> {
    v.map_values(|s: String| s@)
}

impl ManuscriptNode {
    pub open spec fn view(&self) -> NodeView {
        NodeView {
            id: self.id@,
            title: self.title@,
            node_type: self.node_type,
            children: id_seq(self.children@),
            status: self.status,
            mood: opt_view(self.mood),
            pov: opt_view(self.pov),
            word_count: self.word_count,
        }
    }
}

/// The views of a list of nodes.
pub open spec fn node_views(v: Seq<ManuscriptNode>) -> Seq<NodeView> {
    v.map_values(|n: ManuscriptNode| n.view())
}

/// Whether no two nodes share an id.
pub open spec fn unique_ids(ns: Seq<NodeView>) -> bool {
    forall|i: int, j: int| 0 <= i < ns.len() && 0 <= j < ns.len() && i != j ==> ns[i].id != ns[j].id
}

/// Whether a node has the given id.
pub open spec fn has_node(ns: Seq<NodeView>, id: Seq<char>) -> bool {
    exists|i: int| 0 <= i < ns.len() && ns[i].id == id
}

/// The node with the given id, the last one where several share it.
pub open spec fn lookup(ns: Seq<NodeView>, id: Seq<char>) -> Option<NodeView>
    decreases ns.len(),
{
    if ns.len() == 0 {
        None
    } else if ns.last().id == id {
        Some(ns.last())
    } else {
        lookup(ns.drop_last(), id)
    }
}

/// The ids without any occurrence of `x`.
pub open spec fn remove_id(s: Seq<Seq<char>>, x: Seq<char>) -> Seq<Seq<char>>
    decreases s.len(),
{
    if s.len() == 0 {
        s
    } else if s.last() == x {
        remove_id(s.drop_last(), x)
    } else {
        remove_id(s.drop_last(), x).push(s.last())
    }
}

/// The nodes after deleting `x`: its node gone, and `x` gone from every children list.
pub open spec fn delete_nodes(ns: Seq<NodeView>, x: Seq<char>) -> Seq<NodeView>
    decreases ns.len(),
{
    if ns.len() == 0 {
        ns
    } else if ns.last().id == x {
        delete_nodes(ns.drop_last(), x)
    } else {
        delete_nodes(ns.drop_last(), x).push(
            NodeView { children: remove_id(ns.last().children, x), ..ns.last() },
        )
    }
}

/// The sum of the cached word counts of the nodes.
pub open spec fn words_total(ns: Seq<NodeView>) -> nat
    decreases ns.len(),
{
    if ns.len() == 0 {
        0
    } else {
        words_total(ns.drop_last()) + ns.last().word_count as nat
    }
}

/// The ids of the chapter nodes reached from `id` depth first, the node before its children;
/// `fuel` bounds the depth.
pub open spec fn chapters_from(ns: Seq<NodeView>, id: Seq<char>, fuel: nat) -> Seq<Seq<char>>
    decreases fuel, 0nat,
{
    if fuel == 0 {
        Seq::empty()
    } else {
        match lookup(ns, id) {
            None => Seq::empty(),
            Some(n) => (if n.node_type == NodeType::Chapter {
                seq![id]
            } else {
                Seq::empty()
            }) + chapters_under(ns, n.children, (fuel - 1) as nat),
        }
    }
}

/// The chapter ids reached from each of `cs` in turn.
pub open spec fn chapters_under(ns: Seq<NodeView>, cs: Seq<Seq<char>>, fuel: nat) -> Seq<
    Seq<char>,
>
    decreases fuel, cs.len(),
{
    if cs.len() == 0 {
        Seq::empty()
    } else {
        chapters_under(ns, cs.drop_last(), fuel) + chapters_from(ns, cs.last(), fuel)
    }
}

impl ManuscriptStructure {
    /// The nodes as plain values.
    pub open spec fn node_list(&self) -> Seq<NodeView> {
        node_views(self.nodes@)
    }

    /// Whether the node ids are unique, as the keys of a map are.
    pub open spec fn wf(&self) -> bool {
        unique_ids(self.node_list())
    }

    /// The chapter ids in reading order: depth first from the root through the children
    /// lists. A tree has no path longer than its number of nodes, which bounds the walk.
    pub open spec fn chapter_order(&self) -> Seq<Seq<char>> {
        chapters_from(self.node_list(), self.root@, self.nodes@.len())
    }
}

/// What adding the chapter node `id` titled `title` under `parent` does: the node joins the
/// nodes and the flat order, and the parent's children if the parent is a node; every other
/// node stays as it was, and the path, root, title and author too.
pub open spec fn added(
    before: Project,
    after: Project,
    id: Seq<char>,
    title: Seq<char>,
    parent: Seq<char>,
) -> bool {
    &&& after.path == before.path
    &&& after.structure.root == before.structure.root
    &&& after.metadata.title == before.metadata.title
    &&& after.metadata.author == before.metadata.author
    &&& id_seq(after.structure.order@) == id_seq(before.structure.order@).push(id)
    &&& lookup(after.structure.node_list(), id) == Some(
        NodeView {
            id,
            title,
            node_type: NodeType::Chapter,
            children: if parent == id {
                seq![id]
            } else {
                Seq::empty()
            },
            status: ChapterStatus::Draft,
            mood: None,
            pov: None,
            word_count: 0,
        },
    )
    &&& forall|k: Seq<char>|
        k != id ==> #[trigger] lookup(after.structure.node_list(), k) == match lookup(
            before.structure.node_list(),
            k,
        ) {
            Some(n) => Some(
                if k == parent {
                    NodeView { children: n.children.push(id), ..n }
                } else {
                    n
                },
            ),
            None => None,
        }
}

/// The node that receives a new or reordered chapter: the one named, else the root.
pub open spec fn parent_key(parent_id: Option<&str>, root: Seq<char>) -> Seq<char> {
    match parent_id {
        Some(p) => p@,
        None => root,
    }
}

/// The project's directory joined with a file name; an empty directory adds no separator.
pub open spec fn join_path(dir: Seq<char>, name: Seq<char>) -> Seq<char> {
    if dir.len() == 0 || dir.last() == '/' {
        dir + name
    } else {
        dir + seq!['/'] + name
    }
}

/// Whether a character is kept in a directory name: alphanumeric, `-`, `_` or a space.
pub open spec fn keeps_char(c: char) -> bool {
    alphanumeric(c) || c == '-' || c == '_' || c == ' '
}

/// Whether `char::is_alphanumeric` holds of a character.
pub uninterp spec fn alphanumeric(c: char) -> bool;

/// The characters of a title, each one kept or replaced by `_`.
pub open spec fn sanitized(t: Seq<char>) -> Seq<char>
    decreases t.len(),
{
    if t.len() == 0 {
        t
    } else {
        sanitized(t.drop_last()).push(if keeps_char(t.last()) { t.last() } else { '_' })
    }
}

/// Relies on `char::is_alphanumeric`: whether the character is Alphabetic or Numeric in
/// Unicode's sense.
#[verifier::external_body]
fn is_alphanumeric(c: char) -> (r: bool)
    ensures
        r == alphanumeric(c),
{
    c.is_alphanumeric()
}

/// A title made safe as a directory name: each character other than an alphanumeric one,
/// `-`, `_` or a space becomes `_`, and the result is trimmed.
pub fn sanitize_filename(name: &str) -> (r: String)
    ensures
        r@ == trim(sanitized(name@)),
{
    let t = to_chars(name);
    let mut out: Vec<char> = Vec::new();
    let mut i: usize = 0;
    while i < t.len()
        invariant
            i <= t@.len(),
            out@ == sanitized(t@.take(i as int)),
        decreases t@.len() - i,
    {
        let c = t[i];
        let keep = is_alphanumeric(c) || c == '-' || c == '_' || c == ' ';
        out.push(if keep { c } else { '_' });
        let ghost pre = t@.take(i as int);
        i = i + 1;
        assert(t@.take(i as int).drop_last() == pre);
    }
    assert(t@.take(t@.len() as int) == t@);
    string_of(&trim_chars(&out))
}

/// A copy of a list of ids.
fn copy_ids(s: &Vec<String>) -> (r: Vec<String>)
    ensures
        r@ == s@,
{
    let mut out: Vec<String> = Vec::new();
    let mut i: usize = 0;
    while i < s.len()
        invariant
            i <= s@.len(),
            out@ == s@.take(i as int),
        decreases s@.len() - i,
    {
        out.push(s[i].clone());
        i = i + 1;
        assert(out@ =~= s@.take(i as int));
    }
    assert(s@.take(s@.len() as int) =~= s@);
    out
}

/// A copy of an optional string.
fn copy_opt(o: &Option<String>) -> (r: Option<String>)
    ensures
        r == *o,
{
    match o {
        Some(s) => Some(s.clone()),
        None => None,
    }
}

impl ManuscriptNode {
    /// A copy of the node.
    pub fn copy(&self) -> (r: ManuscriptNode)
        ensures
            r.view() == self.view(),
            r.id == self.id,
    {
        ManuscriptNode {
            id: self.id.clone(),
            title: self.title.clone(),
            node_type: self.node_type,
            children: copy_ids(&self.children),
            status: self.status,
            mood: copy_opt(&self.mood),
            pov: copy_opt(&self.pov),
            word_count: self.word_count,
        }
    }
}

/// The copy of `s` without any occurrence of `x`.
fn without_id(s: &Vec<String>, x: &String) -> (r: Vec<String>)
    ensures
        id_seq(r@) == remove_id(id_seq(s@), x@),
{
    let mut out: Vec<String> = Vec::new();
    let mut i: usize = 0;
    while i < s.len()
        invariant
            i <= s@.len(),
            id_seq(out@) == remove_id(id_seq(s@).take(i as int), x@),
        decreases s@.len() - i,
    {
        let ghost pre = id_seq(s@).take(i as int);
        let ghost before = out@;
        if s[i] != *x {
            out.push(s[i].clone());
            assert(id_seq(out@) =~= id_seq(before).push(s@[i as int]@));
        }
        i = i + 1;
        assert(id_seq(s@).take(i as int).drop_last() =~= pre);
    }
    assert(id_seq(s@).take(s@.len() as int) =~= id_seq(s@));
    out
}

/// The index of the node with the given id, the last one where several share it.
pub fn find_node(nodes: &Vec<ManuscriptNode>, id: &String) -> (r: Option<usize>)
    ensures
        r matches Some(i) ==> i < nodes@.len() && nodes@[i as int].id@ == id@ && lookup(
            node_views(nodes@),
            id@,
        ) == Some(nodes@[i as int].view()),
        r is None ==> lookup(node_views(nodes@), id@) is None,
{
    let mut k: usize = nodes.len();
    assert(node_views(nodes@).take(k as int) =~= node_views(nodes@));
    while k > 0
        invariant
            k <= nodes@.len(),
            lookup(node_views(nodes@), id@) == lookup(node_views(nodes@).take(k as int), id@),
        decreases k,
    {
        let ghost pre = node_views(nodes@).take(k as int);
        assert(pre.drop_last() =~= node_views(nodes@).take(k - 1));
        if nodes[k - 1].id == *id {
            return Some(k - 1);
        }
        k = k - 1;
    }
    None
}

proof fn lemma_lookup_none(ns: Seq<NodeView>, id: Seq<char>)
    requires
        lookup(ns, id) is None,
    ensures
        !has_node(ns, id),
    decreases ns.len(),
{
    if ns.len() > 0 {
        lemma_lookup_none(ns.drop_last(), id);
        assert forall|i: int| 0 <= i < ns.len() implies ns[i].id != id by {
            if i < ns.len() - 1 {
                assert(ns.drop_last()[i] == ns[i]);
            }
        }
    }
}


/// The directory `dir` joined with `name`.
fn join(dir: &str, name: &String) -> (r: String)
    ensures
        r@ == join_path(dir@, name@),
{
    let d = to_chars(dir);
    let mut s = dir.to_string();
    if d.len() > 0 && d[d.len() - 1] != '/' {
        s.append("/");
        proof {
            reveal_strlit("/");
        }
        assert(s@ =~= dir@ + seq!['/']);
    }
    s.append(name.as_str());
    s
}

proof fn lemma_lookup_some(ns: Seq<NodeView>, id: Seq<char>)
    requires
        lookup(ns, id) is Some,
    ensures
        has_node(ns, id),
        exists|i: int| 0 <= i < ns.len() && ns[i].id == id && lookup(ns, id) == Some(ns[i]),
    decreases ns.len(),
{
    if ns.last().id != id {
        lemma_lookup_some(ns.drop_last(), id);
        let i = choose|i: int| 0 <= i < ns.drop_last().len() && ns.drop_last()[i].id == id
            && lookup(ns.drop_last(), id) == Some(ns.drop_last()[i]);
        assert(ns[i] == ns.drop_last()[i]);
    } else {
        assert(ns[ns.len() - 1] == ns.last());
    }
}

proof fn lemma_lookup_unique(ns: Seq<NodeView>, i: int)
    requires
        unique_ids(ns),
        0 <= i < ns.len(),
    ensures
        lookup(ns, ns[i].id) == Some(ns[i]),
    decreases ns.len(),
{
    if i < ns.len() - 1 {
        assert(ns.last().id != ns[i].id);
        assert(ns.drop_last()[i] == ns[i]);
        lemma_lookup_unique(ns.drop_last(), i);
    }
}

proof fn lemma_lookup_absent(ns: Seq<NodeView>, id: Seq<char>)
    requires
        !has_node(ns, id),
    ensures
        lookup(ns, id) is None,
{
    if lookup(ns, id) is Some {
        lemma_lookup_some(ns, id);
    }
}

/// Every node left after a deletion has the id of a node that was there before.
proof fn lemma_delete_keeps_ids(ns: Seq<NodeView>, x: Seq<char>, id: Seq<char>)
    requires
        has_node(delete_nodes(ns, x), id),
    ensures
        has_node(ns, id),
        id != x,
    decreases ns.len(),
{
    let d = delete_nodes(ns, x);
    let prev = delete_nodes(ns.drop_last(), x);
    let j = choose|j: int| 0 <= j < d.len() && d[j].id == id;
    if ns.last().id == x {
        lemma_delete_keeps_ids(ns.drop_last(), x, id);
    } else if j < prev.len() {
        assert(d[j] == prev[j]);
        lemma_delete_keeps_ids(ns.drop_last(), x, id);
    } else {
        assert(ns[ns.len() - 1].id == id);
    }
    if has_node(ns.drop_last(), id) {
        let k = choose|k: int| 0 <= k < ns.drop_last().len() && ns.drop_last()[k].id == id;
        assert(ns[k] == ns.drop_last()[k]);
    }
}

proof fn lemma_delete_unique(ns: Seq<NodeView>, x: Seq<char>)
    requires
        unique_ids(ns),
    ensures
        unique_ids(delete_nodes(ns, x)),
    decreases ns.len(),
{
    if ns.len() > 0 {
        let init = ns.drop_last();
        assert(unique_ids(init)) by {
            assert forall|i: int, j: int|
                0 <= i < init.len() && 0 <= j < init.len() && i != j implies init[i].id
                != init[j].id by {
                assert(init[i] == ns[i] && init[j] == ns[j]);
            }
        }
        lemma_delete_unique(init, x);
        if ns.last().id != x {
            let prev = delete_nodes(init, x);
            if has_node(prev, ns.last().id) {
                lemma_delete_keeps_ids(init, x, ns.last().id);
                let k = choose|k: int| 0 <= k < init.len() && init[k].id == ns.last().id;
                assert(init[k] == ns[k]);
                assert(ns[ns.len() - 1] == ns.last());
            }
            let d = delete_nodes(ns, x);
            assert forall|i: int, j: int|
                0 <= i < d.len() && 0 <= j < d.len() && i != j implies d[i].id != d[j].id by {
                if i < prev.len() && j < prev.len() {
                    assert(d[i] == prev[i] && d[j] == prev[j]);
                } else if i < prev.len() {
                    assert(d[i] == prev[i]);
                    assert(has_node(prev, d[i].id));
                } else if j < prev.len() {
                    assert(d[j] == prev[j]);
                    assert(has_node(prev, d[j].id));
                }
            }
        }
    }
}

/// The nodes without the node `x`, and without `x` in any children list.
fn delete_from(nodes: &Vec<ManuscriptNode>, x: &String) -> (r: Vec<ManuscriptNode>)
    ensures
        node_views(r@) == delete_nodes(node_views(nodes@), x@),
{
    let mut out: Vec<ManuscriptNode> = Vec::new();
    let mut i: usize = 0;
    while i < nodes.len()
        invariant
            i <= nodes@.len(),
            node_views(out@) == delete_nodes(node_views(nodes@).take(i as int), x@),
        decreases nodes@.len() - i,
    {
        let ghost pre = node_views(nodes@).take(i as int);
        let ghost before = out@;
        let n = &nodes[i];
        if n.id != *x {
            let children = without_id(&n.children, x);
            let kept = ManuscriptNode {
                id: n.id.clone(),
                title: n.title.clone(),
                node_type: n.node_type,
                children,
                status: n.status,
                mood: copy_opt(&n.mood),
                pov: copy_opt(&n.pov),
                word_count: n.word_count,
            };
            out.push(kept);
            assert(node_views(out@) =~= node_views(before).push(kept.view()));
        }
        i = i + 1;
        assert(node_views(nodes@).take(i as int).drop_last() =~= pre);
    }
    assert(node_views(nodes@).take(nodes@.len() as int) =~= node_views(nodes@));
    out
}

impl ManuscriptStructure {
    /// Whether some node has the id, some children list names it, or the flat order does.
    pub open spec fn uses_id(&self, id: Seq<char>) -> bool {
        ||| has_node(self.node_list(), id)
        ||| exists|i: int| 0 <= i < self.nodes@.len() && (#[trigger] self.node_list()[i]).children.contains(id)
        ||| id_seq(self.order@).contains(id)
    }

    /// Whether some node has the id, some children list names it, or the flat order does.
    pub fn id_in_use(&self, id: &String) -> (r: bool)
        ensures
            r == self.uses_id(id@),
    {
        let ghost ns = self.node_list();
        let mut i: usize = 0;
        while i < self.nodes.len()
            invariant
                i <= self.nodes@.len(),
                ns == self.node_list(),
                forall|a: int| 0 <= a < i ==> ns[a].id != id@ && !(#[trigger] ns[a]).children.contains(id@),
            decreases self.nodes@.len() - i,
        {
            let n = &self.nodes[i];
            if n.id == *id {
                assert(ns[i as int].id == id@);
                return true;
            }
            let mut j: usize = 0;
            while j < n.children.len()
                invariant
                    j <= n.children@.len(),
                    i < self.nodes@.len(),
                    ns == self.node_list(),
                    *n == self.nodes@[i as int],
                    forall|a: int| 0 <= a < i ==> ns[a].id != id@ && !(#[trigger] ns[a]).children.contains(id@),
                    forall|b: int| 0 <= b < j ==> n.children@[b]@ != id@,
                decreases n.children@.len() - j,
            {
                if n.children[j] == *id {
                    assert(ns[i as int].children == id_seq(n.children@));
                    assert(ns[i as int].children[j as int] == id@);
                    return true;
                }
                j = j + 1;
            }
            assert(!ns[i as int].children.contains(id@)) by {
                if ns[i as int].children.contains(id@) {
                    let b = choose|b: int| 0 <= b < ns[i as int].children.len() && ns[i as int].children[b] == id@;
                    assert(ns[i as int].children == id_seq(n.children@));
                    assert(n.children@[b]@ == id@);
                }
            }
            i = i + 1;
        }
        let mut k: usize = 0;
        while k < self.order.len()
            invariant
                k <= self.order@.len(),
                forall|b: int| 0 <= b < k ==> self.order@[b]@ != id@,
            decreases self.order@.len() - k,
        {
            if self.order[k] == *id {
                assert(id_seq(self.order@)[k as int] == id@);
                return true;
            }
            k = k + 1;
        }
        assert(!id_seq(self.order@).contains(id@)) by {
            if id_seq(self.order@).contains(id@) {
                let b = choose|b: int| 0 <= b < id_seq(self.order@).len() && id_seq(self.order@)[b] == id@;
                assert(self.order@[b]@ == id@);
            }
        }
        assert(!has_node(ns, id@));
        false
    }

    /// Whether no two nodes share an id, the condition the tree operations require.
    pub fn has_unique_ids(&self) -> (r: bool)
        ensures
            r == self.wf(),
    {
        let n = self.nodes.len();
        let ghost ns = self.node_list();
        let mut i: usize = 0;
        while i < n
            invariant
                i <= n == self.nodes@.len(),
                ns == self.node_list(),
                forall|a: int, b: int| 0 <= a < i && 0 <= b < n && a != b ==> ns[a].id != ns[b].id,
            decreases n - i,
        {
            let mut j: usize = 0;
            while j < n
                invariant
                    i < n == self.nodes@.len(),
                    j <= n,
                    ns == self.node_list(),
                    forall|a: int, b: int| 0 <= a < i && 0 <= b < n && a != b ==> ns[a].id != ns[b].id,
                    forall|b: int| 0 <= b < j && b != i ==> ns[i as int].id != ns[b].id,
                decreases n - j,
            {
                if j != i && self.nodes[i].id == self.nodes[j].id {
                    assert(ns[i as int].id == ns[j as int].id);
                    return false;
                }
                j = j + 1;
            }
            i = i + 1;
        }
        true
    }

    /// Replaces the node at `i` by one with the same id.
    fn set_node(&mut self, i: usize, node: ManuscriptNode)
        requires
            old(self).wf(),
            i < old(self).nodes@.len(),
            node.id@ == old(self).nodes@[i as int].id@,
        ensures
            final(self).wf(),
            final(self).root == old(self).root,
            final(self).order == old(self).order,
            final(self).nodes@.len() == old(self).nodes@.len(),
            lookup(final(self).node_list(), node.id@) == Some(node.view()),
            forall|id: Seq<char>|
                id != node.id@ ==> #[trigger] lookup(final(self).node_list(), id) == lookup(
                    old(self).node_list(),
                    id,
                ),
    {
        let ghost old_list = self.node_list();
        let ghost nv = node.view();
        self.nodes.set(i, node);
        let ghost new_list = self.node_list();
        assert(new_list =~= old_list.update(i as int, nv));
        assert(self.wf()) by {
            assert forall|a: int, b: int|
                0 <= a < new_list.len() && 0 <= b < new_list.len() && a != b implies new_list[a].id
                != new_list[b].id by {
                assert(old_list[a].id == new_list[a].id);
                assert(old_list[b].id == new_list[b].id);
            }
        }
        proof {
            lemma_lookup_unique(new_list, i as int);
            assert forall|id: Seq<char>| id != nv.id implies #[trigger] lookup(new_list, id)
                == lookup(old_list, id) by {
                if has_node(old_list, id) {
                    let j = choose|j: int| 0 <= j < old_list.len() && old_list[j].id == id;
                    assert(new_list[j] == old_list[j]);
                    lemma_lookup_unique(old_list, j);
                    lemma_lookup_unique(new_list, j);
                } else {
                    lemma_lookup_absent(old_list, id);
                    assert(!has_node(new_list, id)) by {
                        if has_node(new_list, id) {
                            let j = choose|j: int| 0 <= j < new_list.len() && new_list[j].id == id;
                            assert(old_list[j].id == new_list[j].id);
                        }
                    }
                    lemma_lookup_absent(new_list, id);
                }
            }
        }
    }

    /// Puts `node` under its id, replacing the node that had it.
    fn insert_node(&mut self, node: ManuscriptNode)
        requires
            old(self).wf(),
        ensures
            final(self).wf(),
            final(self).root == old(self).root,
            final(self).order == old(self).order,
            lookup(final(self).node_list(), node.id@) == Some(node.view()),
            forall|id: Seq<char>|
                id != node.id@ ==> #[trigger] lookup(final(self).node_list(), id) == lookup(
                    old(self).node_list(),
                    id,
                ),
    {
        match find_node(&self.nodes, &node.id) {
            Some(i) => {
                proof {
                    lemma_lookup_some(self.node_list(), node.id@);
                    let j = choose|j: int| 0 <= j < self.node_list().len()
                        && self.node_list()[j].id == node.id@ && lookup(self.node_list(), node.id@)
                        == Some(self.node_list()[j]);
                    lemma_lookup_unique(self.node_list(), j);
                    lemma_lookup_unique(self.node_list(), i as int);
                    assert(self.node_list()[i as int].id == node.id@);
                }
                self.set_node(i, node);
            },
            None => {
                let ghost old_list = self.node_list();
                let ghost nv = node.view();
                proof {
                    lemma_lookup_none(old_list, node.id@);
                }
                self.nodes.push(node);
                let ghost new_list = self.node_list();
                assert(new_list =~= old_list.push(nv));
                assert(new_list.drop_last() =~= old_list);
                assert(self.wf()) by {
                    assert forall|a: int, b: int|
                        0 <= a < new_list.len() && 0 <= b < new_list.len() && a != b implies new_list[a].id
                        != new_list[b].id by {
                        if a < old_list.len() && b < old_list.len() {
                            assert(old_list[a] == new_list[a] && old_list[b] == new_list[b]);
                        } else if a < old_list.len() {
                            assert(old_list[a] == new_list[a]);
                        } else if b < old_list.len() {
                            assert(old_list[b] == new_list[b]);
                        }
                    }
                }
            },
        }
    }

    /// Appends `child` to the children of the node `parent`, if there is one.
    fn push_child(&mut self, parent: &String, child: &String)
        requires
            old(self).wf(),
        ensures
            final(self).wf(),
            final(self).root == old(self).root,
            final(self).order == old(self).order,
            forall|id: Seq<char>|
                #[trigger] lookup(final(self).node_list(), id) == match lookup(
                    old(self).node_list(),
                    id,
                ) {
                    Some(n) => Some(
                        if id == parent@ {
                            NodeView { children: n.children.push(child@), ..n }
                        } else {
                            n
                        },
                    ),
                    None => None,
                },
    {
        match find_node(&self.nodes, parent) {
            Some(i) => {
                let mut node = self.nodes[i].copy();
                let ghost before = node.children@;
                node.children.push(child.clone());
                assert(id_seq(node.children@) =~= id_seq(before).push(child@));
                let ghost n = old(self).node_list()[i as int];
                assert(node.view() == NodeView { children: n.children.push(child@), ..n });
                self.set_node(i, node);
            },
            None => {},
        }
    }
}

/// After removing `x` from a list of ids, `x` is no longer in it.
proof fn lemma_remove_id_gone(s: Seq<Seq<char>>, x: Seq<char>)
    ensures
        !remove_id(s, x).contains(x),
        !s.contains(x) ==> remove_id(s, x) == s,
    decreases s.len(),
{
    if s.len() > 0 {
        lemma_remove_id_gone(s.drop_last(), x);
        let r = remove_id(s.drop_last(), x);
        if s.last() != x {
            assert forall|i: int| 0 <= i < r.push(s.last()).len() implies r.push(s.last())[i]
                != x by {
                if i < r.len() {
                    assert(r.push(s.last())[i] == r[i]);
                }
            }
        }
        if !s.contains(x) {
            assert(!s.drop_last().contains(x)) by {
                if s.drop_last().contains(x) {
                    let i = choose|i: int| 0 <= i < s.drop_last().len() && s.drop_last()[i] == x;
                    assert(s[i] == x);
                }
            }
            assert(s[s.len() - 1] == s.last());
            assert(s.drop_last().push(s.last()) =~= s);
        }
    }
}

/// Deleting an id leaves no node with that id and no children list that names it; where
/// the id was nowhere, nodes stay as they were.
pub proof fn lemma_deleted_id_is_gone(ns: Seq<NodeView>, x: Seq<char>)
    ensures
        !has_node(delete_nodes(ns, x), x),
        forall|i: int|
            0 <= i < delete_nodes(ns, x).len() ==> !(#[trigger] delete_nodes(ns, x)[i]).children.contains(x),
        !has_node(ns, x) && (forall|i: int| 0 <= i < ns.len() ==> !(#[trigger] ns[i]).children.contains(x))
            ==> delete_nodes(ns, x) == ns,
    decreases ns.len(),
{
    if ns.len() > 0 {
        let init = ns.drop_last();
        lemma_deleted_id_is_gone(init, x);
        let d = delete_nodes(ns, x);
        let prev = delete_nodes(init, x);
        lemma_remove_id_gone(ns.last().children, x);
        if ns.last().id != x {
            assert forall|i: int| 0 <= i < d.len() implies !(#[trigger] d[i]).children.contains(x) by {
                if i < prev.len() {
                    assert(d[i] == prev[i]);
                }
            }
            assert(!has_node(d, x)) by {
                if has_node(d, x) {
                    let i = choose|i: int| 0 <= i < d.len() && d[i].id == x;
                    if i < prev.len() {
                        assert(d[i] == prev[i]);
                    }
                }
            }
        }
        if !has_node(ns, x) && (forall|i: int| 0 <= i < ns.len() ==> !(#[trigger] ns[i]).children.contains(x)) {
            assert(!has_node(init, x)) by {
                if has_node(init, x) {
                    let i = choose|i: int| 0 <= i < init.len() && init[i].id == x;
                    assert(ns[i] == init[i]);
                }
            }
            assert forall|i: int| 0 <= i < init.len() implies !(#[trigger] init[i]).children.contains(x) by {
                assert(ns[i] == init[i]);
            }
            assert(ns[ns.len() - 1] == ns.last());
            assert(ns.last().id != x);
            assert(!ns.last().children.contains(x));
            assert(d =~= ns);
        }
    }
}

/// Deleting an id removes it from the flat order; an order without it stays as it was.
pub proof fn lemma_deleted_id_leaves_order(order: Seq<Seq<char>>, x: Seq<char>)
    ensures
        !remove_id(order, x).contains(x),
        !order.contains(x) ==> remove_id(order, x) == order,
{
    lemma_remove_id_gone(order, x);
}

impl Project {
    /// The project's document list before any chapter: the metadata, and a tree of one
    /// book node titled as the project, in a directory named after the sanitized title.
    pub fn create(dir: &str, title: &str, author: &str) -> (r: Project)
        ensures
            r.path@ == join_path(dir@, trim(sanitized(title@)) + ".qb"@),
            r.metadata.title@ == title@,
            r.metadata.author@ == author@,
            r.metadata.genre@ == Seq::<char>::empty(),
            r.metadata.word_count_target is None,
            r.metadata.deadline is None,
            r.metadata.created_at == r.metadata.modified_at,
            r.structure.nodes@.len() == 1,
            r.structure.nodes@[0].id == r.structure.root,
            r.structure.nodes@[0].view() == (NodeView {
                id: r.structure.root@,
                title: title@,
                node_type: NodeType::Book,
                children: Seq::empty(),
                status: ChapterStatus::Draft,
                mood: None,
                pov: None,
                word_count: 0,
            }),
            r.structure.order@.len() == 0,
            r.structure.wf(),
    {
        let mut name = sanitize_filename(title);
        name.append(".qb");
        let path = join(dir, &name);
        let at = now();
        let root = new_id();
        let node = ManuscriptNode {
            id: root.clone(),
            title: title.to_string(),
            node_type: NodeType::Book,
            children: Vec::new(),
            status: ChapterStatus::Draft,
            mood: None,
            pov: None,
            word_count: 0,
        };
        assert(id_seq(node.children@) =~= Seq::<Seq<char>>::empty());
        let nodes = vec![node];
        Project {
            path,
            metadata: ProjectMetadata {
                title: title.to_string(),
                author: author.to_string(),
                genre: String::new(),
                word_count_target: None,
                deadline: None,
                created_at: at,
                modified_at: at,
            },
            structure: ManuscriptStructure { root, nodes, order: Vec::new() },
        }
    }

    /// A project from the documents read from `project_dir`: the tree is required, and its
    /// absence is `NotFound` with the tree document's path; missing metadata takes defaults.
    pub fn open(
        project_dir: &str,
        structure: Option<ManuscriptStructure>,
        metadata: Option<ProjectMetadata>,
    ) -> (r: Result<Project, ProjectError>)
        ensures
            structure is None ==> (r matches Err(ProjectError::NotFound(p)) && p@ == join_path(
                project_dir@,
                "manuscript.json"@,
            )),
            structure matches Some(s) ==> (r matches Ok(p) && {
                &&& p.path@ == project_dir@
                &&& p.structure == s
                &&& metadata matches Some(m) ==> p.metadata == m
                &&& metadata is None ==> {
                    &&& p.metadata.title@ == "Untitled"@
                    &&& p.metadata.author@ == Seq::<char>::empty()
                    &&& p.metadata.genre@ == Seq::<char>::empty()
                    &&& p.metadata.word_count_target is None
                    &&& p.metadata.deadline is None
                    &&& p.metadata.created_at == p.metadata.modified_at
                }
            }),
    {
        match structure {
            None => {
                let file = String::from_str("manuscript.json");
                Err(ProjectError::NotFound(join(project_dir, &file)))
            },
            Some(s) => {
                let m = match metadata {
                    Some(m) => m,
                    None => {
                        let at = now();
                        ProjectMetadata {
                            title: String::from_str("Untitled"),
                            author: String::new(),
                            genre: String::new(),
                            word_count_target: None,
                            deadline: None,
                            created_at: at,
                            modified_at: at,
                        }
                    },
                };
                Ok(Project { path: project_dir.to_string(), metadata: m, structure: s })
            },
        }
    }

    /// Adds a new chapter titled `title` under `parent_id` (the root by default): its node
    /// joins the nodes, the flat order and the parent's children. A parent that does not
    /// exist leaves the node unreferenced. The chapter's id is fresh: no node has it, no
    /// children list and no flat order names it; should the drawn id be in use, nothing
    /// changes and the result is an error. Returns the chapter, whose file is still to write.
    pub fn add_chapter(&mut self, title: &str, parent_id: Option<&str>) -> (r: Result<
        Chapter,
        ProjectError,
    >)
        requires
            old(self).structure.wf(),
        ensures
            final(self).structure.wf(),
            r matches Ok(c) ==> {
                &&& uuid_text(c.id@)
                &&& !old(self).structure.uses_id(c.id@)
                &&& c.title@ == title@
                &&& c.content@ == Seq::<char>::empty()
                &&& c.status@ == "draft"@
                &&& c.word_count == 0
                &&& added(*old(self), *final(self), c.id@, title@, parent_key(parent_id, old(self).structure.root@))
            },
            r matches Err(e) ==> e is Io && *final(self) == *old(self) && exists|id: Seq<char>|
                uuid_text(id) && #[trigger] old(self).structure.uses_id(id),
    {
        let chapter = Chapter::new(title);
        if self.structure.id_in_use(&chapter.id) {
            return Err(ProjectError::Io(String::from_str("chapter id already in use")));
        }
        let parent = match parent_id {
            Some(p) => p.to_string(),
            None => self.structure.root.clone(),
        };
        self.attach(&chapter.id, title, &parent);
        Ok(chapter)
    }

    /// Puts a chapter node with the given id and title under `parent`.
    fn attach(&mut self, id: &String, title: &str, parent: &String)
        requires
            old(self).structure.wf(),
        ensures
            final(self).structure.wf(),
            added(*old(self), *final(self), id@, title@, parent@),
    {
        let node = ManuscriptNode {
            id: id.clone(),
            title: title.to_string(),
            node_type: NodeType::Chapter,
            children: Vec::new(),
            status: ChapterStatus::Draft,
            mood: None,
            pov: None,
            word_count: 0,
        };
        assert(id_seq(node.children@) =~= Seq::<Seq<char>>::empty());
        self.structure.insert_node(node);
        let ghost before = self.structure.order@;
        self.structure.order.push(id.clone());
        assert(id_seq(self.structure.order@) =~= id_seq(before).push(id@));
        self.structure.push_child(parent, id);
        self.metadata.modified_at = now();
    }

    /// Deletes the node `chapter_id`: the id leaves every children list and the flat order,
    /// and its node goes. Returns whether the node existed, that is whether its file is to be
    /// removed. An id that is nowhere changes nothing.
    pub fn delete_chapter(&mut self, chapter_id: &str) -> (r: bool)
        ensures
            r == has_node(old(self).structure.node_list(), chapter_id@),
            final(self).structure.node_list() == delete_nodes(
                old(self).structure.node_list(),
                chapter_id@,
            ),
            id_seq(final(self).structure.order@) == remove_id(
                id_seq(old(self).structure.order@),
                chapter_id@,
            ),
            final(self).structure.root == old(self).structure.root,
            final(self).path == old(self).path,
            old(self).structure.wf() ==> final(self).structure.wf(),
    {
        let id = chapter_id.to_string();
        let existed = match find_node(&self.structure.nodes, &id) {
            Some(_) => true,
            None => {
                proof {
                    lemma_lookup_none(old(self).structure.node_list(), chapter_id@);
                }
                false
            },
        };
        proof {
            if existed {
                lemma_lookup_some(old(self).structure.node_list(), chapter_id@);
            }
            if old(self).structure.wf() {
                lemma_delete_unique(old(self).structure.node_list(), chapter_id@);
            }
        }
        let nodes = delete_from(&self.structure.nodes, &id);
        self.structure.nodes = nodes;
        let order = without_id(&self.structure.order, &id);
        self.structure.order = order;
        self.metadata.modified_at = now();
        existed
    }

    /// Renames the node `chapter_id`; `ChapterNotFound` where there is none. The chapter
    /// file, if any, is renamed by its owner.
    pub fn rename_chapter(&mut self, chapter_id: &str, new_title: &str) -> (r: Result<
        (),
        ProjectError,
    >)
        requires
            old(self).structure.wf(),
        ensures
            final(self).structure.wf(),
            lookup(old(self).structure.node_list(), chapter_id@) is None ==> (r matches Err(
                ProjectError::ChapterNotFound(m),
            ) && m@ == chapter_id@ && final(self).structure == old(self).structure
                && final(self).metadata == old(self).metadata),
            lookup(old(self).structure.node_list(), chapter_id@) matches Some(n) ==> (r is Ok
                && lookup(final(self).structure.node_list(), chapter_id@) == Some(
                NodeView { title: new_title@, ..n },
            )),
            forall|id: Seq<char>|
                id != chapter_id@ ==> #[trigger] lookup(final(self).structure.node_list(), id)
                    == lookup(old(self).structure.node_list(), id),
            final(self).structure.root == old(self).structure.root,
            final(self).structure.order == old(self).structure.order,
            final(self).path == old(self).path,
    {
        let id = chapter_id.to_string();
        match find_node(&self.structure.nodes, &id) {
            None => Err(ProjectError::ChapterNotFound(id)),
            Some(i) => {
                let mut node = self.structure.nodes[i].copy();
                node.title = new_title.to_string();
                let ghost n = old(self).structure.node_list()[i as int];
                assert(node.view() == NodeView { title: new_title@, ..n });
                self.structure.set_node(i, node);
                self.metadata.modified_at = now();
                Ok(())
            },
        }
    }

    /// Replaces the children of `parent_id` (the root by default), if that node exists, and
    /// the flat order, both by `new_order` as given.
    pub fn reorder_chapters(&mut self, new_order: Vec<String>, parent_id: Option<&str>)
        requires
            old(self).structure.wf(),
        ensures
            final(self).structure.wf(),
            final(self).structure.order@ == new_order@,
            forall|id: Seq<char>|
                #[trigger] lookup(final(self).structure.node_list(), id) == {
                    let parent = parent_key(parent_id, old(self).structure.root@);
                    match lookup(old(self).structure.node_list(), id) {
                        Some(n) => Some(
                            if id == parent {
                                NodeView { children: id_seq(new_order@), ..n }
                            } else {
                                n
                            },
                        ),
                        None => None,
                    }
                },
            final(self).structure.root == old(self).structure.root,
            final(self).path == old(self).path,
    {
        let parent = match parent_id {
            Some(p) => p.to_string(),
            None => self.structure.root.clone(),
        };
        match find_node(&self.structure.nodes, &parent) {
            Some(i) => {
                let mut node = self.structure.nodes[i].copy();
                node.children = copy_ids(&new_order);
                let ghost n = old(self).structure.node_list()[i as int];
                assert(node.view() == NodeView { children: id_seq(new_order@), ..n });
                self.structure.set_node(i, node);
            },
            None => {},
        }
        self.structure.order = new_order;
        self.metadata.modified_at = now();
    }

    /// Records a chapter's word count in its node, if there is one.
    pub fn set_word_count(&mut self, chapter_id: &str, word_count: u64)
        requires
            old(self).structure.wf(),
        ensures
            final(self).structure.wf(),
            forall|id: Seq<char>|
                #[trigger] lookup(final(self).structure.node_list(), id) == match lookup(
                    old(self).structure.node_list(),
                    id,
                ) {
                    Some(n) => Some(
                        if id == chapter_id@ {
                            NodeView { word_count, ..n }
                        } else {
                            n
                        },
                    ),
                    None => None,
                },
            final(self).structure.root == old(self).structure.root,
            final(self).structure.order == old(self).structure.order,
            final(self).path == old(self).path,
            final(self).metadata == old(self).metadata,
    {
        let id = chapter_id.to_string();
        match find_node(&self.structure.nodes, &id) {
            Some(i) => {
                let mut node = self.structure.nodes[i].copy();
                node.word_count = word_count;
                let ghost n = old(self).structure.node_list()[i as int];
                assert(node.view() == NodeView { word_count, ..n });
                self.structure.set_node(i, node);
            },
            None => {},
        }
    }

    /// The project as a front end is shown it, with its total word count.
    pub fn into_state(self) -> (r: ProjectState)
        ensures
            r.path == self.path,
            r.metadata == self.metadata,
            r.structure == self.structure,
            r.total_word_count == if words_total(self.structure.node_list()) > u64::MAX {
                u64::MAX as nat
            } else {
                words_total(self.structure.node_list())
            },
    {
        let total = self.total_word_count();
        ProjectState {
            path: self.path,
            metadata: self.metadata,
            structure: self.structure,
            total_word_count: total,
        }
    }

    /// The sum of every node's cached word count, at most `u64::MAX`.
    pub fn total_word_count(&self) -> (r: u64)
        ensures
            r == if words_total(self.structure.node_list()) > u64::MAX {
                u64::MAX as nat
            } else {
                words_total(self.structure.node_list())
            },
    {
        let nodes = &self.structure.nodes;
        let mut total: u64 = 0;
        let mut i: usize = 0;
        while i < nodes.len()
            invariant
                i <= nodes@.len(),
                total == if words_total(node_views(nodes@).take(i as int)) > u64::MAX {
                    u64::MAX as nat
                } else {
                    words_total(node_views(nodes@).take(i as int))
                },
            decreases nodes@.len() - i,
        {
            let ghost pre = node_views(nodes@).take(i as int);
            total = total.saturating_add(nodes[i].word_count);
            i = i + 1;
            assert(node_views(nodes@).take(i as int).drop_last() =~= pre);
        }
        assert(node_views(nodes@).take(nodes@.len() as int) =~= node_views(nodes@));
        total
    }
}

} // verus!
