//! The project's file tree as the file browser shows it: directories that can be collapsed,
//! the flattened list of visible items, and looking items up by position or by name.
use vstd::prelude::*;
use crate::text::{concat, string_push, str_equal, string_of_str};
use crate::tokens::strings_view;

verus! {

/// The browser's tab: the code outline or the files.
#[derive(Debug, Clone, Copy, PartialEq, Eq, Structural)]
pub enum FileTabs {
    Outline,
    Files,
}

impl Default for FileTabs {
    fn default() -> (t: FileTabs)
        ensures
            t == FileTabs::Files,
    {
        FileTabs::Files
    }
}

/// The option tab open in the file options menu.
#[derive(Debug, Clone, Copy, PartialEq, Eq, Structural)]
pub enum OptionTabs {
    Null,
    Files,
}

impl Default for OptionTabs {
    fn default() -> (t: OptionTabs)
        ensures
            t == OptionTabs::Null,
    {
        OptionTabs::Null
    }
}

/// The state of the file options menu.
#[derive(Debug, Clone, Copy, PartialEq, Eq, Structural)]
pub struct FileOptionManager {
    pub selectedOptionsTab: OptionTabs,
}

/// A file or a directory.
#[derive(Debug, Clone, Copy, PartialEq, Eq, Structural)]
pub enum FileType {
    File,
    Directory,
}

/// One visible item of the flattened tree.
#[derive(Debug)]
pub struct FileInfo {
    pub name: String,
    pub fileType: FileType,
    pub depth: usize,
    pub collapsed: bool,
    pub path: String,
}

/// A visible item as plain values: name, type, depth, collapsed, path.
pub type FileInfoView = (Seq<char>, FileType, usize, bool, Seq<char>);

pub open spec fn info_view(f: FileInfo) -> FileInfoView {
    (f.name@, f.fileType, f.depth, f.collapsed, f.path@)
}

pub open spec fn infos_view(v: Seq<FileInfo>) -> Seq<FileInfoView> {
    v.map_values(|f: FileInfo| info_view(f))
}

/// A directory: its path, its subdirectories (in the order they appear among its items),
/// its files, and all its items in order.
#[derive(Debug)]
pub struct FilePathNode {
    pub pathName: String,
    pub paths: Vec<FilePathNode>,
    pub dirFiles: Vec<String>,
    pub allItems: Vec<(String, FileType)>,
    pub collapsed: bool,
}

/// The number of directories among the first `k` items.
pub open spec fn count_dirs(items: Seq<(String, FileType)>, k: int) -> nat
    decreases k,
{
    if k <= 0 {
        0
    } else {
        count_dirs(items, k - 1) + if items[k - 1].1 == FileType::Directory {
            1nat
        } else {
            0nat
        }
    }
}

/// Every directory has one subdirectory node per directory item, and so on down.
pub open spec fn tree_wf(n: FilePathNode) -> bool
    decreases n, n.paths@.len() + 1,
{
    &&& n.paths@.len() == count_dirs(n.allItems@, n.allItems@.len() as int)
    &&& children_wf(n, 0)
}

pub open spec fn children_wf(n: FilePathNode, k: int) -> bool
    decreases n, n.paths@.len() - k,
{
    if k < 0 || k >= n.paths@.len() {
        true
    } else {
        tree_wf(n.paths@[k]) && children_wf(n, k + 1)
    }
}

/// The number of levels of the tree (a directory without subdirectories has one).
pub open spec fn height(n: FilePathNode) -> nat
    decreases n, n.paths@.len() + 1,
{
    1 + children_height(n, 0)
}

pub open spec fn children_height(n: FilePathNode, k: int) -> nat
    decreases n, n.paths@.len() - k,
{
    if k < 0 || k >= n.paths@.len() {
        0
    } else {
        let h = height(n.paths@[k]);
        let rest = children_height(n, k + 1);
        if h >= rest {
            h
        } else {
            rest
        }
    }
}

proof fn lemma_children(n: FilePathNode, k: int, j: int)
    requires
        0 <= k <= j < n.paths@.len(),
        children_wf(n, k),
    ensures
        tree_wf(n.paths@[j]),
        height(n.paths@[j]) <= children_height(n, k),
    decreases j - k,
{
    if k < j {
        lemma_children(n, k + 1, j);
    }
}

/// `dir/name`.
pub open spec fn joined_path(dir: Seq<char>, name: Seq<char>) -> Seq<char> {
    dir + seq!['/'] + name
}

/// The visible items of `n` at `depth` (see `items_from`).
pub open spec fn collect(n: FilePathNode, depth: int) -> Seq<FileInfoView>
    decreases n, n.paths@.len() + 1,
{
    items_from(n, depth, 0, 0)
}

/// The visible items from item `k` on (`dir` directories before it): each item, and after
/// each expanded directory the items inside it one level deeper.
pub open spec fn items_from(n: FilePathNode, depth: int, k: int, dir: int) -> Seq<FileInfoView>
    decreases n, n.paths@.len() - dir, n.allItems@.len() - k,
{
    if k < 0 || k >= n.allItems@.len() || dir < 0 {
        Seq::empty()
    } else {
        let (name, t) = n.allItems@[k];
        let path = joined_path(n.pathName@, name@);
        if t == FileType::Directory {
            if dir < n.paths@.len() {
                let child = n.paths@[dir];
                let here = seq![(name@, t, depth as usize, child.collapsed, path)];
                let inner = if child.collapsed {
                    Seq::empty()
                } else {
                    collect(child, depth + 1)
                };
                here + inner + items_from(n, depth, k + 1, dir + 1)
            } else {
                Seq::empty()
            }
        } else {
            seq![(name@, t, depth as usize, false, path)] + items_from(n, depth, k + 1, dir)
        }
    }
}

proof fn lemma_count_dirs_mono(items: Seq<(String, FileType)>, i: int, j: int)
    requires
        0 <= i <= j,
    ensures
        count_dirs(items, i) <= count_dirs(items, j),
    decreases j - i,
{
    if i < j {
        lemma_count_dirs_mono(items, i, j - 1);
    }
}

/// `dir/name` as a string.
fn join_path(dir: &String, name: &String) -> (p: String)
    ensures
        p@ == joined_path(dir@, name@),
{
    let mut p = dir.clone();
    string_push(&mut p, '/');
    concat(&p, name)
}

/// A directory node as plain values, its subdirectories included.
pub struct FileNodeView {
    pub pathName: Seq<char>,
    pub paths: Seq<FileNodeView>,
    pub dirFiles: Seq<Seq<char>>,
    pub allItems: Seq<(Seq<char>, FileType)>,
    pub collapsed: bool,
}

pub open spec fn node_view(n: FilePathNode) -> FileNodeView
    decreases n,
{
    FileNodeView {
        pathName: n.pathName@,
        paths: nodes_view(n.paths@),
        dirFiles: strings_view(n.dirFiles@),
        allItems: n.allItems@.map_values(|it: (String, FileType)| (it.0@, it.1)),
        collapsed: n.collapsed,
    }
}

pub open spec fn nodes_view(s: Seq<FilePathNode>) -> Seq<FileNodeView>
    decreases s,
{
    if s.len() == 0 {
        Seq::empty()
    } else {
        nodes_view(s.drop_last()).push(node_view(s.last()))
    }
}

proof fn lemma_nodes_view(s: Seq<FilePathNode>)
    ensures
        nodes_view(s).len() == s.len(),
        forall|i: int| 0 <= i < s.len() ==> #[trigger] nodes_view(s)[i] == node_view(s[i]),
    decreases s.len(),
{
    if s.len() > 0 {
        lemma_nodes_view(s.drop_last());
        assert forall|i: int| 0 <= i < s.len() implies #[trigger] nodes_view(s)[i] == node_view(s[i]) by {
            if i < s.len() - 1 {
                assert(s.drop_last()[i] == s[i]);
            }
        }
    }
}

/// The first subdirectory from `k` on whose path is `name`.
pub open spec fn child_named(paths: Seq<FilePathNode>, name: Seq<char>, k: int) -> Option<int>
    decreases paths.len() - k,
{
    if k < 0 || k >= paths.len() {
        None
    } else if paths[k].pathName@ == name {
        Some(k)
    } else {
        child_named(paths, name, k + 1)
    }
}

/// The first item from `k` on named `name`.
pub open spec fn item_named(items: Seq<(String, FileType)>, name: Seq<char>, k: int) -> Option<int>
    decreases items.len() - k,
{
    if k < 0 || k >= items.len() {
        None
    } else if items[k].0@ == name {
        Some(k)
    } else {
        item_named(items, name, k + 1)
    }
}

/// The subdirectory indices leading from `n` to the node that holds the item the names
/// lead to: each name is looked up among the items of the directory reached so far; a
/// directory is entered (and is the result when no names are left), a file's directory is
/// the result.
pub open spec fn leaf_path(n: FilePathNode, names: Seq<Seq<char>>) -> Option<Seq<usize>>
    decreases names.len(),
{
    if names.len() == 0 {
        None
    } else {
        match item_named(n.allItems@, names[0], 0) {
            None => None,
            Some(k) => if n.allItems@[k].1 == FileType::Directory {
                let d = count_dirs(n.allItems@, k + 1) - 1;
                if names.len() > 1 {
                    if 0 <= d < n.paths@.len() {
                        match leaf_path(n.paths@[d], names.drop_first()) {
                            Some(p) => Some(seq![d as usize] + p),
                            None => None,
                        }
                    } else {
                        None
                    }
                } else {
                    Some(seq![d as usize])
                }
            } else {
                Some(Seq::empty())
            },
        }
    }
}

/// Searching the visible tree in order for the item at position `index`, counting from
/// `i`: the names leading to it, and the count reached.
pub open spec fn search(n: FilePathNode, i: int, index: int, depth: int) -> (Option<Seq<Seq<char>>>, int)
    decreases n, n.paths@.len() + 1,
{
    if n.collapsed && depth > 0 {
        (None, i)
    } else {
        search_from(n, 0, 0, i, index, depth)
    }
}

pub open spec fn search_from(n: FilePathNode, k: int, dir: int, i: int, index: int, depth: int) -> (Option<
    Seq<Seq<char>>,
>, int)
    decreases n, n.paths@.len() - dir, n.allItems@.len() - k,
{
    if k < 0 || k >= n.allItems@.len() || dir < 0 {
        (None, i)
    } else {
        let (name, t) = n.allItems@[k];
        if i == index {
            (Some(seq![name@]), i)
        } else if t == FileType::Directory {
            if dir < n.paths@.len() {
                let (r, i2) = search(n.paths@[dir], i + 1, index, depth + 1);
                match r {
                    Some(p) => (Some(seq![name@] + p), i2),
                    None => search_from(n, k + 1, dir + 1, i2, index, depth),
                }
            } else {
                (None, i + 1)
            }
        } else {
            search_from(n, k + 1, dir, i + 1, index, depth)
        }
    }
}

/// The visible items of a node reached at `depth` (none inside a closed subdirectory).
pub open spec fn visible_items(n: FilePathNode, depth: int) -> Seq<FileInfoView> {
    if n.collapsed && depth > 0 {
        Seq::empty()
    } else {
        collect(n, depth)
    }
}

proof fn lemma_search_visible(n: FilePathNode, i: int, index: int, depth: int)
    requires
        tree_wf(n),
        0 <= depth,
        depth + height(n) <= usize::MAX + 1,
        i <= index,
    ensures
        ({
            let l = visible_items(n, depth);
            let r = search(n, i, index, depth);
            &&& index < i + l.len() ==> r.0 is Some && r.0.unwrap().len() >= 1 && r.0.unwrap().len() == l[index - i].2
                - depth + 1 && r.0.unwrap().last() == l[index - i].0
            &&& index >= i + l.len() ==> r.0 is None && r.1 == i + l.len()
        }),
    decreases n, n.paths@.len() + 1,
{
    if !(n.collapsed && depth > 0) {
        lemma_search_from_items(n, 0, 0, i, index, depth);
    }
}

proof fn lemma_search_from_items(n: FilePathNode, k: int, dir: int, i: int, index: int, depth: int)
    requires
        tree_wf(n),
        0 <= depth,
        depth + height(n) <= usize::MAX + 1,
        i <= index,
        0 <= k,
        dir == count_dirs(n.allItems@, k),
    ensures
        ({
            let l = items_from(n, depth, k, dir);
            let r = search_from(n, k, dir, i, index, depth);
            &&& index < i + l.len() ==> r.0 is Some && r.0.unwrap().len() >= 1 && r.0.unwrap().len() == l[index - i].2
                - depth + 1 && r.0.unwrap().last() == l[index - i].0
            &&& index >= i + l.len() ==> r.0 is None && r.1 == i + l.len()
        }),
    decreases n, n.paths@.len() - dir, n.allItems@.len() - k,
{
    if k >= n.allItems@.len() {
    } else {
        let (name, t) = n.allItems@[k];
        let path = joined_path(n.pathName@, name@);
        let l = items_from(n, depth, k, dir);
        assert(height(n) >= 1);
        assert((depth as usize) as int == depth);
        if t == FileType::Directory {
            lemma_count_dirs_mono(n.allItems@, k + 1, n.allItems@.len() as int);
            assert(count_dirs(n.allItems@, k + 1) == dir + 1);
            assert(dir < n.paths@.len());
            let child = n.paths@[dir];
            lemma_children(n, 0, dir);
            let here = seq![(name@, t, depth as usize, child.collapsed, path)];
            let inner = visible_items(child, depth + 1);
            let rest = items_from(n, depth, k + 1, dir + 1);
            assert(l == here + inner + rest);
            assert(height(n) == 1 + children_height(n, 0));
            if i == index {
                assert(l[0] == here[0]);
                assert(search_from(n, k, dir, i, index, depth).0 == Some(seq![name@]));
            } else {
                lemma_search_visible(child, i + 1, index, depth + 1);
                let (r, i2) = search(child, i + 1, index, depth + 1);
                if r is None {
                    lemma_search_from_items(n, k + 1, dir + 1, i2, index, depth);
                    if index < i + l.len() {
                        assert(l[index - i] == rest[index - i2]);
                    }
                } else {
                    assert(l[index - i] == inner[index - i - 1]);
                    let p = r.unwrap();
                    assert((seq![name@] + p).last() == p.last());
                    assert((seq![name@] + p).len() == 1 + p.len());
                }
            }
        } else {
            let here = seq![(name@, t, depth as usize, false, path)];
            let rest = items_from(n, depth, k + 1, dir);
            assert(l == here + rest);
            if i == index {
                assert(l[0] == here[0]);
            }
            if i != index {
                lemma_search_from_items(n, k + 1, dir, i + 1, index, depth);
                if index < i + l.len() {
                    assert(l[index - i] == rest[index - i - 1]);
                }
            }
        }
    }
}

/// The item at position `index` of the visible file list (see `collect`) is the one the
/// browser's search finds there (see `search` and `FileBrowser::GetNthElement`): the names
/// leading to it are one more than its depth and end with its name; past the list's end
/// nothing is found.
pub proof fn lemma_nth_element(tree: FilePathNode, index: nat)
    requires
        tree_wf(tree),
        height(tree) <= usize::MAX,
    ensures
        ({
            let items = collect(tree, 0);
            let found = search(tree, 0, index as int, 0).0;
            &&& index < items.len() ==> found is Some && found.unwrap().len() == items[index as int].2 + 1
                && found.unwrap().last() == items[index as int].0
            &&& index >= items.len() ==> found is None
        }),
{
    lemma_search_visible(tree, 0, index as int, 0);
}

proof fn lemma_search_bound(n: FilePathNode, i: int, index: int, depth: int)
    requires
        i <= index,
    ensures
        search(n, i, index, depth).1 <= index,
    decreases n, n.paths@.len() + 1,
{
    if !(n.collapsed && depth > 0) {
        lemma_search_from_bound(n, 0, 0, i, index, depth);
    }
}

proof fn lemma_search_from_bound(n: FilePathNode, k: int, dir: int, i: int, index: int, depth: int)
    requires
        i <= index,
    ensures
        search_from(n, k, dir, i, index, depth).1 <= index,
    decreases n, n.paths@.len() - dir, n.allItems@.len() - k,
{
    if k < 0 || k >= n.allItems@.len() || dir < 0 {
    } else {
        let (name, t) = n.allItems@[k];
        if i == index {
        } else if t == FileType::Directory {
            if dir < n.paths@.len() {
                lemma_search_bound(n.paths@[dir], i + 1, index, depth + 1);
                let (r, i2) = search(n.paths@[dir], i + 1, index, depth + 1);
                if r is None {
                    lemma_search_from_bound(n, k + 1, dir + 1, i2, index, depth);
                }
            }
        } else {
            lemma_search_from_bound(n, k + 1, dir, i + 1, index, depth);
        }
    }
}

/// `b` is `a` with the directory that `path` leads to (each step the index of a
/// subdirectory) expanded or collapsed the other way; a step past the subdirectories
/// changes nothing.
pub open spec fn toggled_at(a: FilePathNode, b: FilePathNode, path: Seq<usize>) -> bool
    decreases path.len(),
{
    &&& b.pathName == a.pathName
    &&& b.dirFiles == a.dirFiles
    &&& b.allItems == a.allItems
    &&& b.paths@.len() == a.paths@.len()
    &&& if path.len() == 0 {
        b.collapsed == !a.collapsed && b.paths == a.paths
    } else if path[0] >= a.paths@.len() {
        b.collapsed == a.collapsed && b.paths == a.paths
    } else {
        &&& b.collapsed == a.collapsed
        &&& forall|j: int| 0 <= j < a.paths@.len() && j != path[0] ==> #[trigger] b.paths@[j] == a.paths@[j]
        &&& toggled_at(a.paths@[path[0] as int], b.paths@[path[0] as int], path.drop_first())
    }
}

proof fn lemma_children_one_changed(a: FilePathNode, b: FilePathNode, d: int, k: int)
    requires
        a.paths@.len() == b.paths@.len(),
        forall|j: int| 0 <= j < a.paths@.len() && j != d ==> #[trigger] b.paths@[j] == a.paths@[j],
        children_wf(a, k),
        0 <= d < a.paths@.len() && k <= d ==> tree_wf(b.paths@[d]) && height(b.paths@[d]) == height(a.paths@[d]),
    ensures
        children_wf(b, k),
        children_height(b, k) == children_height(a, k),
    decreases a.paths@.len() - k,
{
    if 0 <= k < a.paths@.len() {
        lemma_children_one_changed(a, b, d, k + 1);
    }
}

/// Opening or closing a directory keeps the tree well formed and as high.
pub proof fn lemma_toggled_wf(a: FilePathNode, b: FilePathNode, path: Seq<usize>)
    requires
        tree_wf(a),
        toggled_at(a, b, path),
    ensures
        tree_wf(b),
        height(b) == height(a),
    decreases path.len(),
{
    if path.len() == 0 || path[0] >= a.paths@.len() {
        lemma_children_one_changed(a, b, -1, 0);
    } else {
        let d = path[0] as int;
        lemma_children(a, 0, d);
        lemma_toggled_wf(a.paths@[d], b.paths@[d], path.drop_first());
        lemma_children_one_changed(a, b, d, 0);
    }
}

impl FilePathNode {
    /// Expands or collapses the directory that `path`, from step `k` on, leads to (see
    /// `toggled_at`).
    pub fn ToggleCollapsed(&mut self, path: &Vec<usize>, k: usize)
        requires
            k <= path@.len(),
        ensures
            toggled_at(*old(self), *final(self), path@.skip(k as int)),
        decreases path@.len() - k,
    {
        let ghost rest = path@.skip(k as int);
        if k == path.len() {
            self.collapsed = !self.collapsed;
            proof {
                assert(rest.len() == 0);
            }
        } else {
            let d = path[k];
            proof {
                assert(rest[0] == d);
                assert(rest.drop_first() =~= path@.skip(k + 1));
            }
            if d < self.paths.len() {
                let ghost before = self.paths@;
                let mut child = self.paths.remove(d);
                child.ToggleCollapsed(path, k + 1);
                self.paths.insert(d, child);
                proof {
                    assert forall|j: int| 0 <= j < before.len() && j != d implies #[trigger] self.paths@[j] == before[j] by {
                        if j < d {
                        } else {
                        }
                    }
                    assert(self.paths@[d as int] == child);
                }
            }
        }
    }
}

impl FilePathNode {
    /// An empty, collapsed directory node.
    pub fn new() -> (n: FilePathNode)
        ensures
            n.pathName@.len() == 0,
            n.paths@.len() == 0,
            n.dirFiles@.len() == 0,
            n.allItems@.len() == 0,
            n.collapsed,
            tree_wf(n),
    {
        FilePathNode { pathName: String::new(), paths: Vec::new(), dirFiles: Vec::new(), allItems: Vec::new(), collapsed: true }
    }

    /// The visible items, in order, starting at `depth`: each item, followed (for an
    /// expanded directory) by the items inside it one level deeper (see `collect`).
    pub fn CollectAllItems(&self, depth: usize) -> (all: Vec<FileInfo>)
        requires
            tree_wf(*self),
            depth + height(*self) <= usize::MAX,
        ensures
            infos_view(all@) == collect(*self, depth as int),
        decreases self,
    {
        let ghost items = self.allItems@;
        let ghost total = collect(*self, depth as int);
        let mut all: Vec<FileInfo> = Vec::new();
        let mut k: usize = 0;
        let mut dir: usize = 0;
        proof {
            lemma_count_dirs_mono(items, 0, items.len() as int);
        }
        while k < self.allItems.len()
            invariant
                tree_wf(*self),
                depth + height(*self) <= usize::MAX,
                items == self.allItems@,
                k <= items.len(),
                dir == count_dirs(items, k as int),
                self.paths@.len() == count_dirs(items, items.len() as int),
                infos_view(all@) + items_from(*self, depth as int, k as int, dir as int) == total,
            decreases items.len() - k,
        {
            let ghost a0 = infos_view(all@);
            proof {
                lemma_count_dirs_mono(items, k + 1, items.len() as int);
            }
            let item = &self.allItems[k];
            let path = join_path(&self.pathName, &item.0);
            if item.1 == FileType::Directory {
                let np = self.paths.len();
                let child = &self.paths[dir];
                all.push(FileInfo { name: item.0.clone(), fileType: item.1, depth, collapsed: child.collapsed, path });
                proof {
                    lemma_children(*self, 0, dir as int);
                }
                if !child.collapsed {
                    let mut inner = child.CollectAllItems(depth + 1);
                    all.append(&mut inner);
                }
                proof {
                    let here = seq![(item.0@, item.1, depth, child.collapsed, joined_path(self.pathName@, item.0@))];
                    let inner_v = if child.collapsed {
                        Seq::<FileInfoView>::empty()
                    } else {
                        collect(*child, depth + 1)
                    };
                    assert(infos_view(all@) =~= a0 + here + inner_v);
                    assert(infos_view(all@) + items_from(*self, depth as int, k + 1, dir + 1) =~= a0 + items_from(
                        *self,
                        depth as int,
                        k as int,
                        dir as int,
                    ));
                }
                dir = dir + 1;
            } else {
                all.push(FileInfo { name: item.0.clone(), fileType: item.1, depth, collapsed: false, path });
                proof {
                    assert(infos_view(all@) + items_from(*self, depth as int, k + 1, dir as int) =~= a0 + items_from(
                        *self,
                        depth as int,
                        k as int,
                        dir as int,
                    ));
                }
            }
            k = k + 1;
        }
        proof {
            assert(infos_view(all@) + Seq::<FileInfoView>::empty() =~= infos_view(all@));
        }
        all
    }

    /// A deep copy of the node.
    pub fn copy(&self) -> (res: FilePathNode)
        ensures
            node_view(res) == node_view(*self),
        decreases self,
    {
        let mut paths: Vec<FilePathNode> = Vec::new();
        let mut i: usize = 0;
        while i < self.paths.len()
            invariant
                i <= self.paths@.len(),
                paths@.len() == i,
                forall|k: int| 0 <= k < i ==> node_view(#[trigger] paths@[k]) == node_view(self.paths@[k]),
            decreases self.paths@.len() - i,
        {
            paths.push(self.paths[i].copy());
            i = i + 1;
        }
        let mut dirFiles: Vec<String> = Vec::new();
        let mut j: usize = 0;
        while j < self.dirFiles.len()
            invariant
                j <= self.dirFiles@.len(),
                dirFiles@.len() == j,
                forall|k: int| 0 <= k < j ==> #[trigger] dirFiles@[k]@ == self.dirFiles@[k]@,
            decreases self.dirFiles@.len() - j,
        {
            dirFiles.push(self.dirFiles[j].clone());
            j = j + 1;
        }
        let mut allItems: Vec<(String, FileType)> = Vec::new();
        let mut m: usize = 0;
        while m < self.allItems.len()
            invariant
                m <= self.allItems@.len(),
                allItems@.len() == m,
                forall|k: int| 0 <= k < m ==> (#[trigger] allItems@[k]).0@ == self.allItems@[k].0@ && allItems@[k].1 == self.allItems@[k].1,
            decreases self.allItems@.len() - m,
        {
            allItems.push((self.allItems[m].0.clone(), self.allItems[m].1));
            m = m + 1;
        }
        let res = FilePathNode { pathName: self.pathName.clone(), paths, dirFiles, allItems, collapsed: self.collapsed };
        proof {
            lemma_nodes_view(res.paths@);
            lemma_nodes_view(self.paths@);
            assert(nodes_view(res.paths@) =~= nodes_view(self.paths@));
            assert(strings_view(res.dirFiles@) =~= strings_view(self.dirFiles@));
            assert(res.allItems@.map_values(|it: (String, FileType)| (it.0@, it.1)) =~= self.allItems@.map_values(
                |it: (String, FileType)| (it.0@, it.1),
            ));
        }
        res
    }

    /// A copy of the first subdirectory whose path is `pathName`.
    pub fn GetChild(&self, pathName: String) -> (child: Option<FilePathNode>)
        ensures
            match child_named(self.paths@, pathName@, 0) {
                Some(k) => child is Some && node_view(child.unwrap()) == node_view(self.paths@[k]),
                None => child is None,
            },
    {
        let mut k: usize = 0;
        while k < self.paths.len()
            invariant
                k <= self.paths@.len(),
                child_named(self.paths@, pathName@, 0) == child_named(self.paths@, pathName@, k as int),
            decreases self.paths@.len() - k,
        {
            if str_equal(self.paths[k].pathName.as_str(), pathName.as_str()) {
                return Some(self.paths[k].copy());
            }
            k = k + 1;
        }
        None
    }

    /// The subdirectory indices leading to the node that holds the item `pathNames` names
    /// (see `leaf_path`); the node itself is `self` followed along those indices.
    pub fn GetLeaf(&self, pathNames: Vec<String>) -> (path: Option<Vec<usize>>)
        requires
            pathNames@.len() > 0,
            tree_wf(*self),
        ensures
            match leaf_path(*self, strings_view(pathNames@)) {
                Some(p) => path is Some && path.unwrap()@ == p,
                None => path is None,
            },
        decreases pathNames@.len(),
    {
        let ghost names = strings_view(pathNames@);
        let ghost plen = pathNames@.len();
        let mut rest = pathNames;
        let pathName = rest.remove(0);
        proof {
            assert(pathName@ == names[0]);
            assert(strings_view(rest@) =~= names.drop_first());
        }
        let mut dirCount: usize = 0;
        let mut k: usize = 0;
        let ghost items = self.allItems@;
        proof {
            lemma_count_dirs_mono(items, 0, items.len() as int);
        }
        while k < self.allItems.len()
            invariant
                items == self.allItems@,
                k <= items.len(),
                dirCount == count_dirs(items, k as int),
                self.paths@.len() == count_dirs(items, items.len() as int),
                tree_wf(*self),
                item_named(items, names[0], 0) == item_named(items, names[0], k as int),
                pathName@ == names[0],
                strings_view(rest@) == names.drop_first(),
                names == strings_view(pathNames@),
                rest@.len() + 1 == plen,
                plen == pathNames@.len(),
                names.len() == plen,
            decreases items.len() - k,
        {
            proof {
                lemma_count_dirs_mono(items, k + 1, items.len() as int);
            }
            let np = self.paths.len();
            let is_dir = self.allItems[k].1 == FileType::Directory;
            if is_dir {
                dirCount = dirCount + 1;
            }
            if str_equal(self.allItems[k].0.as_str(), pathName.as_str()) {
                if is_dir {
                    let d = dirCount - 1;
                    if rest.len() > 0 {
                        proof {
                            lemma_children(*self, 0, d as int);
                        }
                        let inner = self.paths[d].GetLeaf(rest);
                        proof {
                            assert(item_named(items, names[0], k as int) == Some(k as int));
                        }
                        return match inner {
                            Some(p) => {
                                let mut out = vec![d];
                                let mut p2 = p;
                                let ghost pv = p2@;
                                out.append(&mut p2);
                                proof {
                                    assert(out@ =~= seq![d] + pv);
                                }
                                Some(out)
                            },
                            None => None,
                        };
                    }
                    let out = vec![d];
                    proof {
                        assert(item_named(items, names[0], k as int) == Some(k as int));
                        assert(out@ =~= seq![d]);
                    }
                    return Some(out);
                }
                proof {
                    assert(item_named(items, names[0], k as int) == Some(k as int));
                    assert(leaf_path(*self, names) == Some(Seq::<usize>::empty()));
                }
                return Some(Vec::new());
            }
            k = k + 1;
        }
        None
    }
}

impl FileBrowser {
    /// The names leading to the item at position `index` of the visible tree, counting from
    /// `i` (which ends at the count reached; see `search`).
    pub fn SearchFiletree(path: &FilePathNode, i: &mut usize, index: usize, depth: usize) -> (found: Option<Vec<String>>)
        requires
            *old(i) <= index,
            tree_wf(*path),
            depth + height(*path) <= usize::MAX,
        ensures
            ({
                let (r, i2) = search(*path, *old(i) as int, index as int, depth as int);
                &&& *final(i) == i2
                &&& match r {
                    Some(names) => found is Some && strings_view(found.unwrap()@) == names,
                    None => found is None,
                }
            }),
        decreases path,
    {
        proof {
            lemma_search_bound(*path, *i as int, index as int, depth as int);
        }
        if path.collapsed && depth > 0 {
            return None;
        }
        let ghost items = path.allItems@;
        let ghost i0 = *i;
        let mut dirCount: usize = 0;
        let mut k: usize = 0;
        proof {
            lemma_count_dirs_mono(items, 0, items.len() as int);
        }
        while k < path.allItems.len()
            invariant
                items == path.allItems@,
                k <= items.len(),
                dirCount == count_dirs(items, k as int),
                path.paths@.len() == count_dirs(items, items.len() as int),
                tree_wf(*path),
                depth + height(*path) <= usize::MAX,
                *i <= index,
                !(path.collapsed && depth > 0),
                i0 == *old(i),
                search(*path, i0 as int, index as int, depth as int) == search_from(*path, k as int, dirCount as int, *i as int, index as int, depth as int),
            decreases items.len() - k,
        {
            proof {
                lemma_count_dirs_mono(items, k + 1, items.len() as int);
                lemma_search_from_bound(*path, k as int, dirCount as int, *i as int, index as int, depth as int);
            }
            if *i == index {
                let name = path.allItems[k].0.clone();
                let out = vec![name];
                proof {
                    assert(strings_view(out@) =~= seq![items[k as int].0@]);
                    assert(search_from(*path, k as int, dirCount as int, *i as int, index as int, depth as int) == (Some(seq![items[k as int].0@]), *i as int));
                }
                return Some(out);
            }
            let ghost i_before = *i;
            *i = *i + 1;
            if path.allItems[k].1 == FileType::Directory {
                let np = path.paths.len();
                proof {
                    lemma_children(*path, 0, dirCount as int);
                }
                proof {
                    lemma_search_bound(path.paths@[dirCount as int], *i as int, index as int, depth + 1);
                }
                let r = FileBrowser::SearchFiletree(&path.paths[dirCount], i, index, depth + 1);
                proof {
                    let (rr, i2) = search(path.paths@[dirCount as int], i_before + 1, index as int, depth + 1);
                    assert(search_from(*path, k as int, dirCount as int, i_before as int, index as int, depth as int) == match rr {
                        Some(p) => (Some(seq![items[k as int].0@] + p), i2),
                        None => search_from(*path, k + 1, dirCount + 1, i2, index as int, depth as int),
                    });
                }
                match r {
                    Some(names) => {
                        let mut out = vec![path.allItems[k].0.clone()];
                        let mut n2 = names;
                        let ghost nv = strings_view(n2@);
                        out.append(&mut n2);
                        proof {
                            assert(strings_view(out@) =~= seq![items[k as int].0@] + nv);
                        }
                        return Some(out);
                    },
                    None => {},
                }
                dirCount = dirCount + 1;
            }
            k = k + 1;
        }
        None
    }

    /// The names leading to the item at position `index` of the visible tree.
    pub fn GetNthElement(&self, index: usize) -> (found: Option<Vec<String>>)
        requires
            tree_wf(self.fileTree),
            height(self.fileTree) <= usize::MAX,
        ensures
            match search(self.fileTree, 0, index as int, 0).0 {
                Some(names) => found is Some && strings_view(found.unwrap()@) == names,
                None => found is None,
            },
    {
        let mut i: usize = 0;
        FileBrowser::SearchFiletree(&self.fileTree, &mut i, index, 0)
    }

    /// In the outline tab, moves the outline cursor down a line, not past the last of the
    /// `outlineLen` lines; nothing happens in the files tab.
    pub fn MoveCursorDown(&mut self, outlineLen: usize)
        requires
            old(self).fileTab == FileTabs::Outline ==> outlineLen >= 1,
        ensures
            final(self).outlineCursor == if old(self).fileTab == FileTabs::Outline {
                if old(self).outlineCursor + 1 <= outlineLen - 1 {
                    (old(self).outlineCursor + 1) as usize
                } else {
                    (outlineLen - 1) as usize
                }
            } else {
                old(self).outlineCursor
            },
            final(self).fileCursor == old(self).fileCursor,
            final(self).fileTab == old(self).fileTab,
            final(self).fileTree == old(self).fileTree,
            final(self).fileOptions == old(self).fileOptions,
    {
        if self.fileTab == FileTabs::Outline {
            let last = outlineLen - 1;
            self.outlineCursor = if self.outlineCursor < last {
                self.outlineCursor + 1
            } else {
                last
            };
        }
    }

    /// In the outline tab, moves the outline cursor up a line (not above the first).
    pub fn MoveCursorUp(&mut self)
        ensures
            final(self).outlineCursor == if old(self).fileTab == FileTabs::Outline && old(self).outlineCursor > 0 {
                (old(self).outlineCursor - 1) as usize
            } else if old(self).fileTab == FileTabs::Outline {
                0
            } else {
                old(self).outlineCursor
            },
            final(self).fileCursor == old(self).fileCursor,
            final(self).fileTab == old(self).fileTab,
            final(self).fileTree == old(self).fileTree,
            final(self).fileOptions == old(self).fileOptions,
    {
        if self.fileTab == FileTabs::Outline {
            self.outlineCursor = self.outlineCursor.saturating_sub(1);
        }
    }
}

/// The project's file tree and the browser's cursors.
#[derive(Debug)]
pub struct FileBrowser {
    pub fileTree: FilePathNode,
    pub fileTab: FileTabs,
    pub fileCursor: usize,
    pub outlineCursor: usize,
    pub fileOptions: FileOptionManager,
}

impl FileBrowser {
    /// An empty, expanded tree in the files tab, with the cursors at the top.
    pub fn new() -> (b: FileBrowser)
        ensures
            node_view(b.fileTree).paths.len() == 0,
            node_view(b.fileTree).allItems.len() == 0,
            !b.fileTree.collapsed,
            tree_wf(b.fileTree),
            b.fileTab == FileTabs::Files,
            b.fileCursor == 0,
            b.outlineCursor == 0,
    {
        let mut node = FilePathNode::new();
        node.collapsed = false;
        proof {
            lemma_nodes_view(node.paths@);
        }
        FileBrowser {
            fileTree: node,
            fileTab: FileTabs::Files,
            fileCursor: 0,
            outlineCursor: 0,
            fileOptions: FileOptionManager { selectedOptionsTab: OptionTabs::Null },
        }
    }
}

/// The deepest directory level that is read into the tree.
pub const MAX_FILE_EMBEDDING_DEPTH: usize = 4;

/// The extensions of the files the browser lists.
pub open spec fn valid_extension(ext: Seq<char>) -> bool {
    ext == "txt"@ || ext == "rs"@ || ext == "py"@ || ext == "cpp"@ || ext == "hpp"@ || ext == "c"@ || ext == "h"@
        || ext == "lua"@ || ext == "toml"@ || ext == "json"@
}

/// The text after the last `.` of a name (the whole name when it has none).
pub open spec fn extension(name: Seq<char>) -> Seq<char>
    decreases name.len(),
{
    if name.len() == 0 {
        name
    } else if name.last() == '.' {
        Seq::empty()
    } else {
        extension(name.drop_last()).push(name.last())
    }
}

proof fn lemma_extension_no_dot(name: Seq<char>)
    requires
        forall|i: int| 0 <= i < name.len() ==> name[i] != '.',
    ensures
        extension(name) == name,
    decreases name.len(),
{
    if name.len() > 0 {
        assert forall|i: int| 0 <= i < name.drop_last().len() implies name.drop_last()[i] != '.' by {
            assert(name.drop_last()[i] == name[i]);
        }
        lemma_extension_no_dot(name.drop_last());
        assert(name[name.len() - 1] != '.');
        assert(name.drop_last().push(name.last()) =~= name);
    }
}

proof fn lemma_extension_after_dot(name: Seq<char>, d: int)
    requires
        0 <= d < name.len(),
        name[d] == '.',
        forall|i: int| d < i < name.len() ==> name[i] != '.',
    ensures
        extension(name) == name.subrange(d + 1, name.len() as int),
    decreases name.len(),
{
    if d == name.len() - 1 {
        assert(name.subrange(d + 1, name.len() as int) =~= Seq::<char>::empty());
    } else {
        let p = name.drop_last();
        assert forall|i: int| d < i < p.len() implies p[i] != '.' by {
            assert(p[i] == name[i]);
        }
        lemma_extension_after_dot(p, d);
        assert(p.subrange(d + 1, p.len() as int).push(name.last()) =~= name.subrange(d + 1, name.len() as int));
    }
}

/// Whether a file is listed: its extension is one the browser knows.
pub fn AcceptsFile(name: &str) -> (ok: bool)
    ensures
        ok == valid_extension(extension(name@)),
{
    let n = name.unicode_len();
    let mut d: usize = n;
    while d > 0 && name.get_char(d - 1) != '.'
        invariant
            d <= n,
            n == name@.len(),
            forall|i: int| d <= i < n ==> name@[i] != '.',
        decreases d,
    {
        d = d - 1;
    }
    let ext = if d == 0 {
        proof {
            lemma_extension_no_dot(name@);
        }
        string_of_str(name)
    } else {
        proof {
            lemma_extension_after_dot(name@, d - 1);
        }
        crate::text::substring(&string_of_str(name), d, n)
    };
    let e = ext.as_str();
    proof {
        reveal_strlit("txt");
        reveal_strlit("rs");
        reveal_strlit("py");
        reveal_strlit("cpp");
        reveal_strlit("hpp");
        reveal_strlit("c");
        reveal_strlit("h");
        reveal_strlit("lua");
        reveal_strlit("toml");
        reveal_strlit("json");
    }
    str_equal(e, "txt") || str_equal(e, "rs") || str_equal(e, "py") || str_equal(e, "cpp") || str_equal(e, "hpp")
        || str_equal(e, "c") || str_equal(e, "h") || str_equal(e, "lua") || str_equal(e, "toml") || str_equal(e, "json")
}

/// Whether a directory at `depth` is read into the tree.
pub fn DescendsInto(depth: usize) -> (ok: bool)
    ensures
        ok == (depth <= MAX_FILE_EMBEDDING_DEPTH),
{
    depth <= MAX_FILE_EMBEDDING_DEPTH
}

/// The path of the entry `name` in the directory `pathInput` at `depth`: the top directory's
/// path already ends with its separator.
pub fn ChildPath(pathInput: &str, name: &str, depth: usize) -> (p: String)
    ensures
        p@ == if depth == 0 {
            pathInput@ + name@
        } else {
            pathInput@ + seq!['/'] + name@
        },
{
    let mut p = string_of_str(pathInput);
    if depth != 0 {
        string_push(&mut p, '/');
    }
    concat(&p, &string_of_str(name))
}

impl FilePathNode {
    /// The node for a subdirectory named `name`: empty and collapsed, except `src`, which
    /// starts expanded.
    pub fn NewDirectoryNode(name: &str) -> (n: FilePathNode)
        ensures
            tree_wf(n),
            n.paths@.len() == 0,
            n.allItems@.len() == 0,
            n.dirFiles@.len() == 0,
            n.pathName@.len() == 0,
            n.collapsed == (name@ != "src"@),
    {
        let mut n = FilePathNode::new();
        proof {
            reveal_strlit("src");
        }
        if str_equal(name, "src") {
            n.collapsed = false;
        }
        n
    }

    /// Lists a file of this directory.
    pub fn AddFile(&mut self, name: String)
        requires
            tree_wf(*old(self)),
        ensures
            tree_wf(*final(self)),
            strings_view(final(self).dirFiles@) == strings_view(old(self).dirFiles@).push(name@),
            final(self).allItems@.len() == old(self).allItems@.len() + 1,
            final(self).allItems@.drop_last() == old(self).allItems@,
            final(self).allItems@.last().0@ == name@,
            final(self).allItems@.last().1 == FileType::File,
            final(self).paths == old(self).paths,
            final(self).pathName == old(self).pathName,
            final(self).collapsed == old(self).collapsed,
    {
        let ghost items = self.allItems@;
        self.dirFiles.push(name.clone());
        self.allItems.push((name, FileType::File));
        proof {
            assert(strings_view(self.dirFiles@) =~= strings_view(old(self).dirFiles@).push(name@));
            assert(self.allItems@.drop_last() =~= items);
            assert(count_dirs(self.allItems@, self.allItems@.len() as int) == count_dirs(items, items.len() as int)) by {
                lemma_count_dirs_prefix(self.allItems@, items, items.len() as int);
            }
            lemma_children_wf_same(*old(self), *self, 0);
        }
    }

    /// Adds a subdirectory (its node and its item) to this directory.
    pub fn AddDirectory(&mut self, child: FilePathNode, name: String)
        requires
            tree_wf(*old(self)),
            tree_wf(child),
        ensures
            tree_wf(*final(self)),
            final(self).paths@ == old(self).paths@.push(child),
            final(self).allItems@.len() == old(self).allItems@.len() + 1,
            final(self).allItems@.drop_last() == old(self).allItems@,
            final(self).allItems@.last().0@ == name@,
            final(self).allItems@.last().1 == FileType::Directory,
            final(self).dirFiles == old(self).dirFiles,
            final(self).pathName == old(self).pathName,
            final(self).collapsed == old(self).collapsed,
    {
        let ghost items = self.allItems@;
        self.paths.push(child);
        self.allItems.push((name, FileType::Directory));
        proof {
            assert(self.allItems@.drop_last() =~= items);
            lemma_count_dirs_prefix(self.allItems@, items, items.len() as int);
            lemma_children_wf_push(*old(self), *self, 0);
        }
    }
}

proof fn lemma_count_dirs_prefix(a: Seq<(String, FileType)>, b: Seq<(String, FileType)>, k: int)
    requires
        0 <= k <= b.len(),
        k <= a.len(),
        forall|i: int| 0 <= i < k ==> a[i] == b[i],
    ensures
        count_dirs(a, k) == count_dirs(b, k),
    decreases k,
{
    if k > 0 {
        lemma_count_dirs_prefix(a, b, k - 1);
    }
}

proof fn lemma_children_wf_same(a: FilePathNode, b: FilePathNode, k: int)
    requires
        a.paths == b.paths,
        children_wf(a, k),
    ensures
        children_wf(b, k),
    decreases a.paths@.len() - k,
{
    if 0 <= k < a.paths@.len() {
        lemma_children_wf_same(a, b, k + 1);
    }
}

proof fn lemma_children_wf_push(a: FilePathNode, b: FilePathNode, k: int)
    requires
        0 <= k,
        b.paths@.len() == a.paths@.len() + 1,
        forall|i: int| 0 <= i < a.paths@.len() ==> b.paths@[i] == a.paths@[i],
        tree_wf(b.paths@.last()),
        children_wf(a, k),
    ensures
        children_wf(b, k),
    decreases b.paths@.len() - k,
{
    if k < b.paths@.len() {
        lemma_children_wf_push(a, b, k + 1);
    }
}

} // verus!
