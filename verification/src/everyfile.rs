//! Everyfile: the user-centric directory tree.
//!
//! Nodes live in an arena and refer to each other by index. Every user owns a
//! tree below `/users/<name>/` with `main` (configuration) and `house` (personal
//! files).

use vstd::prelude::*;
use vstd::string::StringSliceAdditionalSpecFns;
use crate::cstr::{cstr, c_len, c_strlen, lemma_c_len, lemma_c_len_unique, lemma_cstr_no_zero, lemma_cstr_of_plain, lit, streq};

verus! {

/// Most children a directory holds.
pub const MAX_CHILDREN: usize = 8;
/// Size of the path buffers used by the command line.
pub const MAX_PATH: usize = 128;
/// Most path components that a rendered path shows.
pub const MAX_PATH_DEPTH: usize = 64;
/// Node kind of a directory.
pub const DIRECTORY: u32 = 0;
/// Node kind of a text file.
pub const TEXT: u32 = 1;

/// The byte `/`.
pub const SLASH: u8 = 47;
/// The byte `.`.
pub const DOT: u8 = 46;

/// A directory or text file.
pub struct PlixEveryfileNode {
    pub name: Vec<u8>,
    pub kind: u32,
    pub text: Option<Vec<u8>>,
    pub parent: Option<usize>,
    pub children: Vec<usize>,
}

/// The tree, with its root, the current directory, the active user's home and
/// the directory that holds the users.
pub struct PlixEveryfile {
    pub nodes: Vec<PlixEveryfileNode>,
    pub root: usize,
    pub current: usize,
    pub active_user: usize,
    pub users: usize,
}

/// Node `i` of the arena is well formed: its parent comes before it and its
/// children are nodes of the arena.
pub open spec fn node_wf(nodes: Seq<PlixEveryfileNode>, i: int) -> bool {
    &&& match nodes[i].parent {
        Some(p) => p < i,
        None => true,
    }
    &&& nodes[i].children.len() <= MAX_CHILDREN
    &&& forall|k: int| 0 <= k < nodes[i].children.len() ==> #[trigger] nodes[i].children[k] < nodes.len()
}

impl PlixEveryfile {
    pub open spec fn wf(&self) -> bool {
        &&& self.root < self.nodes.len()
        &&& self.current < self.nodes.len()
        &&& self.active_user < self.nodes.len()
        &&& self.users < self.nodes.len()
        &&& forall|i: int| 0 <= i < self.nodes.len() ==> #[trigger] node_wf(self.nodes@, i)
    }

    /// The same tree with another current directory.
    pub open spec fn moved_to(&self, other: PlixEveryfile, current: usize) -> bool {
        &&& other.nodes == self.nodes
        &&& other.root == self.root
        &&& other.active_user == self.active_user
        &&& other.users == self.users
        &&& other.current == current
    }

    /// The same tree with `home` as the active user's home and current directory.
    pub open spec fn entered(&self, other: PlixEveryfile, home: usize) -> bool {
        &&& other.nodes == self.nodes
        &&& other.root == self.root
        &&& other.users == self.users
        &&& other.active_user == home
        &&& other.current == home
    }
}

/// The name of node `i`.
pub open spec fn name_of(fs: PlixEveryfile, i: int) -> Seq<u8> {
    cstr(fs.nodes[i].name@)
}

/// The first child of `node`, from position `k` on, named `seg`.
pub open spec fn find_child_from(fs: PlixEveryfile, node: int, seg: Seq<u8>, k: int) -> Option<usize>
    decreases fs.nodes[node].children.len() - k,
{
    if k < 0 || k >= fs.nodes[node].children.len() {
        None
    } else if name_of(fs, fs.nodes[node].children[k] as int) == seg {
        Some(fs.nodes[node].children[k])
    } else {
        find_child_from(fs, node, seg, k + 1)
    }
}

/// The first child of `node` named `seg`.
pub open spec fn child_named(fs: PlixEveryfile, node: int, seg: Seq<u8>) -> Option<usize> {
    find_child_from(fs, node, seg, 0)
}

/// Index of the first `/` in `s` at or after `i`, or the length of `s`.
pub open spec fn slash_at(s: Seq<u8>, i: int) -> int
    decreases s.len() - i,
{
    if i < 0 || i >= s.len() {
        s.len() as int
    } else if s[i] == SLASH {
        i
    } else {
        slash_at(s, i + 1)
    }
}

/// Where one path component leads from `cursor`: empty components and `.` stay,
/// `..` goes to the parent (the root stays), a name goes to the child directory
/// of that name; `None` when there is no such directory.
pub open spec fn step(fs: PlixEveryfile, cursor: usize, seg: Seq<u8>) -> Option<usize> {
    if seg.len() == 0 || seg == seq![DOT] {
        Some(cursor)
    } else if seg == seq![DOT, DOT] {
        match fs.nodes[cursor as int].parent {
            Some(p) => Some(p),
            None => Some(cursor),
        }
    } else {
        match child_named(fs, cursor as int, seg) {
            Some(n) => if fs.nodes[n as int].kind == DIRECTORY {
                Some(n)
            } else {
                None
            },
            None => None,
        }
    }
}

/// Follows the `/`-separated components of `rest` from `cursor`.
pub open spec fn walk(fs: PlixEveryfile, cursor: usize, rest: Seq<u8>) -> Option<usize>
    decreases rest.len(),
{
    if rest.len() == 0 {
        Some(cursor)
    } else {
        let e = slash_at(rest, 0);
        let next = if 0 <= e < rest.len() {
            e + 1
        } else {
            rest.len() as int
        };
        match step(fs, cursor, rest.subrange(0, e)) {
            Some(c) => walk(fs, c, rest.subrange(next, rest.len() as int)),
            None => None,
        }
    }
}

/// Where `path` leads: from the root when it starts with `/`, else from the
/// current directory.
pub open spec fn goto_target(fs: PlixEveryfile, path: Seq<u8>) -> Option<usize> {
    let p = cstr(path);
    if p.len() > 0 && p[0] == SLASH {
        walk(fs, fs.root, p.subrange(1, p.len() as int))
    } else {
        walk(fs, fs.current, p)
    }
}

/// Node `i` followed by its ancestors up to the root.
pub open spec fn ancestors(fs: PlixEveryfile, i: int) -> Seq<usize>
    decreases i,
{
    if 0 <= i < fs.nodes.len() {
        match fs.nodes[i].parent {
            Some(p) => if p < i {
                seq![i as usize] + ancestors(fs, p as int)
            } else {
                seq![i as usize]
            },
            None => seq![i as usize],
        }
    } else {
        seq![]
    }
}

/// The directories that a rendered path shows: the current one and its
/// ancestors, at most `MAX_PATH_DEPTH` of them, current first.
pub open spec fn path_stack(fs: PlixEveryfile) -> Seq<usize> {
    let a = ancestors(fs, fs.current as int);
    if a.len() <= MAX_PATH_DEPTH {
        a
    } else {
        a.take(MAX_PATH_DEPTH as int)
    }
}

/// What entry `d` of the stack adds to the path: nothing for an unnamed node,
/// else its name, followed by `/` unless it is the last entry.
pub open spec fn path_piece(fs: PlixEveryfile, stack: Seq<usize>, d: int) -> Seq<u8> {
    let name = name_of(fs, stack[d] as int);
    if name.len() == 0 {
        seq![]
    } else if d > 0 {
        name + seq![SLASH]
    } else {
        name
    }
}

/// The pieces of the stack entries from the outermost one down to entry `d`.
pub open spec fn path_pieces(fs: PlixEveryfile, stack: Seq<usize>, d: int) -> Seq<u8>
    decreases stack.len() - d,
{
    if d < 0 || d >= stack.len() {
        seq![]
    } else {
        path_pieces(fs, stack, d + 1) + path_piece(fs, stack, d)
    }
}

/// The path of the current directory.
pub open spec fn current_path(fs: PlixEveryfile) -> Seq<u8> {
    seq![SLASH] + path_pieces(fs, path_stack(fs), 0)
}

/// How many bytes of the path a buffer of `capacity` bytes holds.
pub open spec fn path_written(fs: PlixEveryfile, capacity: int) -> int {
    if capacity <= 0 {
        0
    } else if current_path(fs).len() < capacity - 1 {
        current_path(fs).len() as int
    } else {
        capacity - 1
    }
}

proof fn lemma_slash_at(s: Seq<u8>, i: int, m: int)
    requires
        0 <= i <= m <= s.len(),
        forall|j: int| i <= j < m ==> s[j] != SLASH,
        m == s.len() || s[m] == SLASH,
    ensures
        slash_at(s, i) == m,
    decreases m - i,
{
    if i < m {
        lemma_slash_at(s, i + 1, m);
    }
}

/// An empty node.
pub fn node() -> (n: PlixEveryfileNode)
    ensures
        n.name@.len() == 0,
        n.kind == DIRECTORY,
        n.text is None,
        n.parent is None,
        n.children@.len() == 0,
{
    PlixEveryfileNode { name: Vec::new(), kind: DIRECTORY, text: None, parent: None, children: Vec::new() }
}

/// Sets a node's name, kind and text, and detaches it.
pub fn node_init(node: &mut PlixEveryfileNode, name: &[u8], kind: u32, text: Option<&[u8]>)
    ensures
        final(node).name@ == name@,
        final(node).kind == kind,
        match text {
            Some(t) => final(node).text matches Some(v) && v@ == t@,
            None => final(node).text is None,
        },
        final(node).parent is None,
        final(node).children@.len() == 0,
{
    node.name = vstd::slice::slice_to_vec(name);
    node.kind = kind;
    node.text = match text {
        Some(t) => Some(vstd::slice::slice_to_vec(t)),
        None => None,
    };
    node.parent = None;
    node.children = Vec::new();
}

/// Makes `child` the next child of `parent`, unless `parent` is full.
pub fn attach(nodes: &mut Vec<PlixEveryfileNode>, parent: usize, child: usize)
    requires
        parent < old(nodes).len(),
        child < old(nodes).len(),
    ensures
        final(nodes).len() == old(nodes).len(),
        old(nodes)[parent as int].children.len() < MAX_CHILDREN ==> forall|i: int|
            0 <= i < old(nodes).len() ==> {
                &&& (#[trigger] final(nodes)[i]).name == old(nodes)[i].name
                &&& final(nodes)[i].kind == old(nodes)[i].kind
                &&& final(nodes)[i].text == old(nodes)[i].text
                &&& final(nodes)[i].children@ == if i == parent {
                    old(nodes)[i].children@.push(child)
                } else {
                    old(nodes)[i].children@
                }
                &&& final(nodes)[i].parent == if i == child {
                    Some(parent)
                } else {
                    old(nodes)[i].parent
                }
                &&& i != parent && i != child ==> final(nodes)[i] == old(nodes)[i]
            },
        old(nodes)[parent as int].children.len() >= MAX_CHILDREN ==> *final(nodes) == *old(nodes),
{
    if nodes[parent].children.len() < MAX_CHILDREN {
        nodes[parent].children.push(child);
        nodes[child].parent = Some(parent);
    }
}

/// Whether the string held by `candidate` is `name[start..start + length]`.
fn name_matches(candidate: &[u8], name: &[u8], start: usize, length: usize) -> (m: bool)
    requires
        start + length <= name.len(),
    ensures
        m == (cstr(candidate@) == name@.subrange(start as int, start + length)),
{
    let seg_slice = vstd::slice::slice_subrange(name, start, start + length);
    let mut j: usize = 0;
    while j < length && j < candidate.len() && candidate[j] != 0 && candidate[j] == seg_slice[j]
        invariant
            j <= length,
            j <= candidate@.len(),
            start + length <= name.len(),
            seg_slice@.len() == length,
            seg_slice@ == name@.subrange(start as int, start + length),
            forall|i: int| 0 <= i < j ==> candidate@[i] != 0 && candidate@[i] == seg_slice@[i],
        decreases length - j,
    {
        j = j + 1;
    }
    let ended = j == candidate.len() || candidate[j] == 0;
    let ghost seg = name@.subrange(start as int, start + length);
    proof {
        lemma_c_len(candidate@);
        if ended {
            lemma_c_len_unique(candidate@, j as nat);
            if j == length {
                assert(cstr(candidate@) =~= seg);
            } else {
                assert(cstr(candidate@).len() != seg.len());
            }
        } else {
            // the candidate's string goes on past `j`
            assert(c_len(candidate@) > j) by {
                if c_len(candidate@) <= j {
                    assert(candidate@[c_len(candidate@) as int] != 0);
                }
            }
            if j == length {
                assert(cstr(candidate@).len() != seg.len());
            } else {
                assert(cstr(candidate@)[j as int] != seg[j as int]);
            }
        }
    }
    j == length && ended
}

/// The first child of `node` named `name[start..start + length]`.
fn find_child(fs: &PlixEveryfile, node: usize, name: &[u8], start: usize, length: usize) -> (found: Option<usize>)
    requires
        fs.wf(),
        node < fs.nodes.len(),
        start + length <= name.len(),
    ensures
        found == child_named(*fs, node as int, name@.subrange(start as int, start + length)),
        found matches Some(c) ==> c < fs.nodes.len(),
{
    let ghost seg = name@.subrange(start as int, start + length);
    let count = fs.nodes[node].children.len();
    let mut k: usize = 0;
    while k < count
        invariant
            fs.wf(),
            node < fs.nodes.len(),
            start + length <= name.len(),
            count == fs.nodes[node as int].children.len(),
            k <= count,
            seg == name@.subrange(start as int, start + length),
            child_named(*fs, node as int, seg) == find_child_from(*fs, node as int, seg, k as int),
        decreases count - k,
    {
        let child = fs.nodes[node].children[k];
        assert(node_wf(fs.nodes@, node as int));
        assert(child == fs.nodes[node as int].children[k as int]);
        let matched = name_matches(fs.nodes[child].name.as_slice(), name, start, length);
        assert(matched == (name_of(*fs, child as int) == seg));
        assert(find_child_from(*fs, node as int, seg, k as int) == if matched {
            Some(child)
        } else {
            find_child_from(*fs, node as int, seg, k + 1)
        });
        if matched {
            return Some(child);
        }
        k = k + 1;
    }
    None
}

/// The current directory.
pub fn plix_everyfile_current(fs: &PlixEveryfile) -> (node: &PlixEveryfileNode)
    requires
        fs.wf(),
    ensures
        *node == fs.nodes[fs.current as int],
{
    &fs.nodes[fs.current]
}

/// Moves the current directory along `path` (absolute when it starts with `/`).
/// Returns 0 on success, -1 with the tree unchanged when a component names no
/// directory.
pub fn plix_everyfile_goto(fs: &mut PlixEveryfile, path: &[u8]) -> (rc: i32)
    requires
        old(fs).wf(),
    ensures
        final(fs).wf(),
        match goto_target(*old(fs), path@) {
            Some(c) => rc == 0 && old(fs).moved_to(*final(fs), c),
            None => rc == -1 && *final(fs) == *old(fs),
        },
{
    let n = c_strlen(path);
    proof {
        lemma_c_len(path@);
    }
    let ghost p = cstr(path@);
    let ghost target = goto_target(*fs, path@);
    let absolute = n > 0 && path[0] == SLASH;
    let mut cursor = if absolute { fs.root } else { fs.current };
    let mut start: usize = if absolute { 1 } else { 0 };
    assert(p.subrange(start as int, n as int) =~= if absolute { p.subrange(1, p.len() as int) } else { p });
    while start < n
        invariant
            fs.wf(),
            *fs == *old(fs),
            target == goto_target(*old(fs), path@),
            n == c_len(path@),
            n <= path@.len(),
            p == path@.take(n as int),
            start <= n,
            cursor < fs.nodes.len(),
            target == walk(*fs, cursor, p.subrange(start as int, n as int)),
        decreases n - start,
    {
        let mut end = start;
        while end < n && path[end] != SLASH
            invariant
                start <= end <= n,
                n <= path@.len(),
                forall|j: int| start <= j < end ==> path@[j] != SLASH,
            decreases n - end,
        {
            end = end + 1;
        }
        let ghost rest = p.subrange(start as int, n as int);
        let ghost seg = rest.subrange(0, (end - start) as int);
        proof {
            lemma_slash_at(rest, 0, (end - start) as int);
            assert(seg =~= path@.subrange(start as int, end as int));
        }
        let len = end - start;
        let next: usize;
        if len == 0 || (len == 1 && path[start] == DOT) {
            proof {
                if len == 1 {
                    assert(seg =~= seq![DOT]);
                }
            }
            next = cursor;
        } else if len == 2 && path[start] == DOT && path[start + 1] == DOT {
            assert(seg =~= seq![DOT, DOT]);
            assert(seg != seq![DOT]);
            assert(node_wf(fs.nodes@, cursor as int));
            next = match fs.nodes[cursor].parent {
                Some(parent) => parent,
                None => cursor,
            };
        } else {
            proof {
                if seg == seq![DOT] {
                    assert(seg[0] == path@[start as int]);
                }
                if seg == seq![DOT, DOT] {
                    assert(seg[0] == path@[start as int]);
                    assert(seg[1] == path@[start + 1]);
                }
            }
            match find_child(fs, cursor, path, start, len) {
                Some(child) => {
                    if fs.nodes[child].kind != DIRECTORY {
                        assert(step(*fs, cursor, seg) is None);
                        return -1;
                    }
                    next = child;
                },
                None => {
                    assert(step(*fs, cursor, seg) is None);
                    return -1;
                },
            }
        }
        let new_start = if end < n { end + 1 } else { end };
        assert(rest.subrange((new_start - start) as int, rest.len() as int) =~= p.subrange(new_start as int, n as int));
        cursor = next;
        start = new_start;
    }
    fs.current = cursor;
    0
}

/// Copies the names of the current directory's children into `names`, at most
/// `capacity` of them, and returns how many children there are.
pub fn plix_everyfile_show(fs: &PlixEveryfile, names: &mut Vec<Vec<u8>>, capacity: usize) -> (count: usize)
    requires
        fs.wf(),
        capacity <= old(names).len(),
    ensures
        count == fs.nodes[fs.current as int].children.len(),
        final(names).len() == old(names).len(),
        forall|i: int| 0 <= i < final(names).len() ==> #[trigger] final(names)[i]@ == if i < count && i < capacity {
            fs.nodes[fs.nodes[fs.current as int].children[i] as int].name@
        } else {
            old(names)[i]@
        },
{
    let count = fs.nodes[fs.current].children.len();
    let copied = if count < capacity { count } else { capacity };
    let mut i: usize = 0;
    while i < copied
        invariant
            fs.wf(),
            count == fs.nodes[fs.current as int].children.len(),
            copied <= count,
            copied <= capacity,
            capacity <= names.len(),
            names.len() == old(names).len(),
            i <= copied,
            forall|j: int| 0 <= j < names.len() ==> #[trigger] names[j]@ == if j < i {
                fs.nodes[fs.nodes[fs.current as int].children[j] as int].name@
            } else {
                old(names)[j]@
            },
        decreases copied - i,
    {
        assert(node_wf(fs.nodes@, fs.current as int));
        let child = fs.nodes[fs.current].children[i];
        let name = vstd::slice::slice_to_vec(fs.nodes[child].name.as_slice());
        names.set(i, name);
        i = i + 1;
    }
    count
}

/// `min(len, lim)`.
pub open spec fn capped(len: int, lim: int) -> int {
    if len < lim {
        len
    } else {
        lim
    }
}

/// Once a bounded writer is full, anything further it is handed is dropped.
proof fn lemma_full_writer(g: Seq<u8>, x: Seq<u8>, lim: int)
    requires
        0 <= lim,
        capped(g.len() as int, lim) == lim,
    ensures
        capped((g + x).len() as int, lim) == lim,
        (g + x).take(lim) == g.take(lim),
{
    assert((g + x).take(lim) =~= g.take(lim));
}

/// Node `i` followed by its ancestors, for a node with a parent.
proof fn lemma_ancestors_step(fs: PlixEveryfile, i: int)
    requires
        fs.wf(),
        0 <= i < fs.nodes.len(),
    ensures
        ancestors(fs, i) == seq![i as usize] + match fs.nodes[i].parent {
            Some(p) => ancestors(fs, p as int),
            None => seq![],
        },
        ancestors(fs, i).len() >= 1,
{
    assert(node_wf(fs.nodes@, i));
    match fs.nodes[i].parent {
        Some(p) => {},
        None => {
            assert(seq![i as usize] + Seq::<usize>::empty() =~= seq![i as usize]);
        },
    }
}

/// Writes the path of the current directory into `buffer`: as many bytes as fit
/// in `capacity - 1`, then a terminating zero. Returns the number of path bytes
/// written; a zero capacity writes nothing.
pub fn plix_everyfile_path(fs: &PlixEveryfile, buffer: &mut [u8], capacity: usize) -> (written: usize)
    requires
        fs.wf(),
        capacity <= old(buffer).len(),
    ensures
        written == path_written(*fs, capacity as int),
        capacity == 0 ==> final(buffer)@ == old(buffer)@,
        capacity > 0 ==> final(buffer)@ == current_path(*fs).take(written as int) + seq![0u8]
            + old(buffer)@.subrange(written + 1, old(buffer)@.len() as int),
{
    let mut stack: Vec<usize> = Vec::new();
    let mut cursor: Option<usize> = Some(fs.current);
    proof {
        lemma_ancestors_step(*fs, fs.current as int);
    }
    while cursor.is_some() && stack.len() < MAX_PATH_DEPTH
        invariant
            fs.wf(),
            stack@.len() <= MAX_PATH_DEPTH,
            forall|k: int| 0 <= k < stack@.len() ==> #[trigger] stack@[k] < fs.nodes.len(),
            cursor matches Some(c) ==> c < fs.nodes.len(),
            ancestors(*fs, fs.current as int) == stack@ + match cursor {
                Some(c) => ancestors(*fs, c as int),
                None => seq![],
            },
        decreases MAX_PATH_DEPTH - stack@.len(),
    {
        let c = match cursor {
            Some(c) => c,
            None => 0,
        };
        proof {
            lemma_ancestors_step(*fs, c as int);
        }
        stack.push(c);
        assert(node_wf(fs.nodes@, c as int));
        cursor = fs.nodes[c].parent;
        proof {
            let rest = match cursor {
                Some(p) => ancestors(*fs, p as int),
                None => seq![],
            };
            assert(stack@ + rest =~= stack@.drop_last() + (seq![c] + rest));
        }
    }
    let ghost st = stack@;
    proof {
        let a = ancestors(*fs, fs.current as int);
        match cursor {
            Some(c) => {
                lemma_ancestors_step(*fs, c as int);
                assert(a.take(MAX_PATH_DEPTH as int) =~= st);
            },
            None => {
                assert(a =~= st);
            },
        }
        assert(path_stack(*fs) == st);
    }
    if capacity == 0 {
        return 0;
    }
    let ghost lim: int = if capacity >= 2 { capacity - 1 } else { 1 };
    let ghost blen = buffer@.len();
    buffer[0] = SLASH;
    let mut written: usize = 1;
    let mut depth: usize = stack.len();
    assert(path_pieces(*fs, st, depth as int) =~= Seq::<u8>::empty());
    while depth > 0 && written < capacity
        invariant
            fs.wf(),
            st == stack@,
            st == path_stack(*fs),
            0 < capacity <= blen,
            blen == buffer@.len(),
            blen == old(buffer)@.len(),
            lim == if capacity >= 2 { capacity - 1 } else { 1 },
            depth <= st.len(),
            forall|k: int| 0 <= k < st.len() ==> #[trigger] st[k] < fs.nodes.len(),
            written == capped((seq![SLASH] + path_pieces(*fs, st, depth as int)).len() as int, lim),
            forall|j: int| 0 <= j < written ==> buffer@[j] == (seq![SLASH] + path_pieces(*fs, st, depth as int))[j],
            forall|j: int| written <= j < blen ==> buffer@[j] == old(buffer)@[j],
        decreases depth,
    {
        let ghost g = seq![SLASH] + path_pieces(*fs, st, depth as int);
        depth = depth - 1;
        let node = stack[depth];
        let name = fs.nodes[node].name.as_slice();
        let ghost cname = cstr(name@);
        proof {
            lemma_c_len(name@);
            assert(seq![SLASH] + path_pieces(*fs, st, depth as int) =~= g + path_piece(*fs, st, depth as int));
        }
        if name.len() == 0 || name[0] == 0 {
            proof {
                lemma_c_len_unique(name@, 0);
                assert(g + path_piece(*fs, st, depth as int) =~= g);
            }
            continue;
        }
        let mut i: usize = 0;
        while i < name.len() && name[i] != 0 && written + 1 < capacity
            invariant
                0 < capacity <= blen,
                blen == buffer@.len(),
                blen == old(buffer)@.len(),
                lim == if capacity >= 2 { capacity - 1 } else { 1 },
                i <= name@.len(),
                forall|j: int| 0 <= j < i ==> name@[j] != 0,
                written == capped((g + name@.take(i as int)).len() as int, lim),
                forall|j: int| 0 <= j < written ==> buffer@[j] == (g + name@.take(i as int))[j],
                forall|j: int| written <= j < blen ==> buffer@[j] == old(buffer)@[j],
            decreases name@.len() - i,
        {
            assert((g + name@.take(i + 1)) =~= (g + name@.take(i as int)).push(name@[i as int]));
            buffer[written] = name[i];
            written = written + 1;
            i = i + 1;
        }
        proof {
            if i < name@.len() && name@[i as int] != 0 {
                // the buffer is full
                lemma_c_len(name@);
                assert(c_len(name@) > i) by {
                    if c_len(name@) <= i {
                        assert(name@[c_len(name@) as int] != 0);
                    }
                }
                assert(cname =~= name@.take(i as int) + cname.subrange(i as int, cname.len() as int));
                lemma_full_writer(g + name@.take(i as int), cname.subrange(i as int, cname.len() as int), lim);
                assert(g + cname =~= (g + name@.take(i as int)) + cname.subrange(i as int, cname.len() as int));
            } else {
                lemma_c_len_unique(name@, i as nat);
                assert(cname =~= name@.take(i as int));
            }
        }
        let ghost h = g + cname;
        assert(written == capped(h.len() as int, lim));
        assert forall|j: int| 0 <= j < written implies buffer@[j] == h[j] by {
            if i < name@.len() && name@[i as int] != 0 {
                assert(h.take(lim) == (g + name@.take(i as int)).take(lim));
                assert(h.take(lim)[j] == h[j]);
            }
        }
        let ghost w0 = written;
        if depth > 0 && written + 1 < capacity {
            assert(h.push(SLASH)[written as int] == SLASH);
            buffer[written] = SLASH;
            written = written + 1;
        }
        proof {
            let piece = path_piece(*fs, st, depth as int);
            if depth > 0 {
                assert(piece =~= cname + seq![SLASH]);
                assert(g + piece =~= h + seq![SLASH]);
                if w0 < lim {
                } else {
                    lemma_full_writer(h, seq![SLASH], lim);
                }
            } else {
                assert(piece =~= cname);
            }
            assert(seq![SLASH] + path_pieces(*fs, st, depth as int) =~= g + piece);
        }
    }
    let ghost full = current_path(*fs);
    assert(depth == 0 ==> seq![SLASH] + path_pieces(*fs, st, depth as int) == full);
    if written >= capacity {
        written = capacity - 1;
    }
    buffer[written] = 0;
    proof {
        if depth == 0 {
            assert(final(buffer)@ =~= full.take(written as int) + seq![0u8]
                + old(buffer)@.subrange(written + 1, old(buffer)@.len() as int));
        } else {
            assert(written == 0);
            assert(final(buffer)@ =~= full.take(written as int) + seq![0u8]
                + old(buffer)@.subrange(written + 1, old(buffer)@.len() as int));
        }
    }
    written
}

/// Makes the directory `name` of the users directory the current directory and
/// the active user's home. Returns 0 on success, -1 with the tree unchanged when
/// there is no such user directory.
pub fn plix_everyfile_enter_user(fs: &mut PlixEveryfile, name: &[u8]) -> (rc: i32)
    requires
        old(fs).wf(),
    ensures
        final(fs).wf(),
        match child_named(*old(fs), old(fs).users as int, cstr(name@)) {
            Some(c) => rc == 0 && old(fs).entered(*final(fs), c),
            None => rc == -1 && *final(fs) == *old(fs),
        },
{
    let ghost seg = cstr(name@);
    let users = fs.users;
    let count = fs.nodes[users].children.len();
    let mut k: usize = 0;
    while k < count
        invariant
            fs.wf(),
            *fs == *old(fs),
            users == fs.users,
            count == fs.nodes[users as int].children.len(),
            k <= count,
            seg == cstr(name@),
            child_named(*fs, users as int, seg) == find_child_from(*fs, users as int, seg, k as int),
        decreases count - k,
    {
        assert(node_wf(fs.nodes@, users as int));
        let child = fs.nodes[users].children[k];
        let matched = streq(fs.nodes[child].name.as_slice(), name);
        assert(find_child_from(*fs, users as int, seg, k as int) == if matched {
            Some(child)
        } else {
            find_child_from(*fs, users as int, seg, k + 1)
        });
        if matched {
            fs.active_user = child;
            fs.current = child;
            return 0;
        }
        k = k + 1;
    }
    -1
}

/// 1 when `name` is `etc` or `home`, the names that Everyfile replaces with
/// `main` and `house`; 0 otherwise.
pub fn plix_everyfile_name_is_reserved(name: &[u8]) -> (reserved: i32)
    ensures
        reserved == if cstr(name@) == lit("etc") || cstr(name@) == lit("home") {
            1i32
        } else {
            0i32
        },
{
    if streq(name, "etc".as_bytes()) || streq(name, "home".as_bytes()) {
        1
    } else {
        0
    }
}

/// Arena index of the root directory in the initial tree.
pub const ROOT_NODE: usize = 0;
/// Arena index of `/users`.
pub const USERS_NODE: usize = 1;
/// Arena index of `/users/root`.
pub const ROOT_HOME_NODE: usize = 2;
/// Arena index of `/users/guest`.
pub const GUEST_HOME_NODE: usize = 7;

/// Node `n` has the given name, kind, text, parent and children.
pub open spec fn node_is(
    n: PlixEveryfileNode,
    name: &str,
    kind: u32,
    text: Option<&str>,
    parent: Option<usize>,
    children: Seq<usize>,
) -> bool {
    &&& n.name@ == name.spec_bytes()
    &&& n.kind == kind
    &&& match text {
        Some(t) => n.text matches Some(v) && v@ == t.spec_bytes(),
        None => n.text is None,
    }
    &&& n.parent == parent
    &&& n.children@ == children
}

/// The tree that the kernel starts with:
/// `/users/{root,guest}/{main/system, house/welcome}`, with the root user's home
/// as the current directory.
pub open spec fn is_initial_tree(fs: PlixEveryfile) -> bool {
    is_initial_tree_at(fs, ROOT_HOME_NODE)
}

/// The initial tree, with `home` as the active user's home and the current
/// directory.
pub open spec fn is_initial_tree_at(fs: PlixEveryfile, home: usize) -> bool {
    let n = fs.nodes;
    &&& n.len() == 12
    &&& node_is(n[0], "", DIRECTORY, None, None, seq![1usize])
    &&& node_is(n[1], "users", DIRECTORY, None, Some(0usize), seq![2usize, 7usize])
    &&& node_is(n[2], "root", DIRECTORY, None, Some(1usize), seq![3usize, 4usize])
    &&& node_is(n[3], "main", DIRECTORY, None, Some(2usize), seq![5usize])
    &&& node_is(n[4], "house", DIRECTORY, None, Some(2usize), seq![6usize])
    &&& node_is(n[5], "system", TEXT, Some("main ersetzt etc fuer globale Konfiguration"), Some(3usize), seq![])
    &&& node_is(n[6], "welcome", TEXT, Some("house ersetzt home fuer Benutzerdaten"), Some(4usize), seq![])
    &&& node_is(n[7], "guest", DIRECTORY, None, Some(1usize), seq![8usize, 9usize])
    &&& node_is(n[8], "main", DIRECTORY, None, Some(7usize), seq![10usize])
    &&& node_is(n[9], "house", DIRECTORY, None, Some(7usize), seq![11usize])
    &&& node_is(n[10], "system", TEXT, Some("guest main konfiguration"), Some(8usize), seq![])
    &&& node_is(n[11], "welcome", TEXT, Some("guest house daten"), Some(9usize), seq![])
    &&& fs.root == ROOT_NODE
    &&& fs.users == USERS_NODE
    &&& fs.active_user == home
    &&& fs.current == home
}

fn make_node(name: &str, kind: u32, text: Option<&str>) -> (n: PlixEveryfileNode)
    ensures
        node_is(n, name, kind, text, None, seq![]),
{
    let mut n = node();
    let text_bytes = match text {
        Some(t) => Some(t.as_bytes()),
        None => None,
    };
    node_init(&mut n, name.as_bytes(), kind, text_bytes);
    assert(n.children@ =~= seq![]);
    n
}

/// Builds the initial tree.
pub fn plix_everyfile_init(fs: &mut PlixEveryfile)
    ensures
        final(fs).wf(),
        is_initial_tree(*final(fs)),
{
    let mut nodes: Vec<PlixEveryfileNode> = Vec::new();
    nodes.push(make_node("", DIRECTORY, None));
    nodes.push(make_node("users", DIRECTORY, None));
    nodes.push(make_node("root", DIRECTORY, None));
    nodes.push(make_node("main", DIRECTORY, None));
    nodes.push(make_node("house", DIRECTORY, None));
    nodes.push(make_node("system", TEXT, Some("main ersetzt etc fuer globale Konfiguration")));
    nodes.push(make_node("welcome", TEXT, Some("house ersetzt home fuer Benutzerdaten")));
    nodes.push(make_node("guest", DIRECTORY, None));
    nodes.push(make_node("main", DIRECTORY, None));
    nodes.push(make_node("house", DIRECTORY, None));
    nodes.push(make_node("system", TEXT, Some("guest main konfiguration")));
    nodes.push(make_node("welcome", TEXT, Some("guest house daten")));
    attach(&mut nodes, 0, 1);
    attach(&mut nodes, 1, 2);
    attach(&mut nodes, 1, 7);
    attach(&mut nodes, 2, 3);
    attach(&mut nodes, 2, 4);
    attach(&mut nodes, 3, 5);
    attach(&mut nodes, 4, 6);
    attach(&mut nodes, 7, 8);
    attach(&mut nodes, 7, 9);
    attach(&mut nodes, 8, 10);
    attach(&mut nodes, 9, 11);
    assert(nodes[0].children@ =~= seq![1usize]);
    assert(nodes[1].children@ =~= seq![2usize, 7usize]);
    assert(nodes[2].children@ =~= seq![3usize, 4usize]);
    assert(nodes[3].children@ =~= seq![5usize]);
    assert(nodes[4].children@ =~= seq![6usize]);
    assert(nodes[5].children@ =~= seq![]);
    assert(nodes[6].children@ =~= seq![]);
    assert(nodes[7].children@ =~= seq![8usize, 9usize]);
    assert(nodes[8].children@ =~= seq![10usize]);
    assert(nodes[9].children@ =~= seq![11usize]);
    assert(nodes[10].children@ =~= seq![]);
    assert(nodes[11].children@ =~= seq![]);
    fs.nodes = nodes;
    fs.root = ROOT_NODE;
    fs.users = USERS_NODE;
    fs.active_user = ROOT_HOME_NODE;
    fs.current = ROOT_HOME_NODE;
    assert forall|i: int| 0 <= i < fs.nodes.len() implies #[trigger] node_wf(fs.nodes@, i) by {
        assert(fs.nodes[i].children.len() <= 2);
    }
}

impl PlixEveryfile {
    /// A tree in its initial state.
    pub fn new() -> (fs: PlixEveryfile)
        ensures
            fs.wf(),
            is_initial_tree(fs),
    {
        let mut fs = PlixEveryfile { nodes: Vec::new(), root: 0, current: 0, active_user: 0, users: 0 };
        plix_everyfile_init(&mut fs);
        fs
    }
}

/// The pieces of the stack entries below position `d`, from entry `d - 1` down
/// to entry 0: what a walk still has to follow once it stands at entry `d`.
pub open spec fn path_rest(fs: PlixEveryfile, stack: Seq<usize>, d: int) -> Seq<u8>
    decreases d,
{
    if d <= 0 || d > stack.len() {
        seq![]
    } else {
        path_piece(fs, stack, d - 1) + path_rest(fs, stack, d - 1)
    }
}

/// The directories from the current one up to the root can be named by a path:
/// at most `MAX_PATH_DEPTH` of them, ending at the root, the root unnamed, and
/// every other one a directory whose name is plain (non-empty, no `/`, not `.`
/// or `..`) and names it among its parent's children.
pub open spec fn addressable(fs: PlixEveryfile) -> bool {
    let a = ancestors(fs, fs.current as int);
    &&& a.len() <= MAX_PATH_DEPTH
    &&& a.len() >= 1
    &&& a.last() == fs.root
    &&& name_of(fs, fs.root as int).len() == 0
    &&& forall|k: int|
        0 <= k < a.len() - 1 ==> {
            let n = #[trigger] name_of(fs, a[k] as int);
            &&& n.len() > 0
            &&& forall|j: int| 0 <= j < n.len() ==> n[j] != SLASH
            &&& n != seq![DOT]
            &&& n != seq![DOT, DOT]
            &&& fs.nodes[a[k] as int].kind == DIRECTORY
            &&& child_named(fs, a[k + 1] as int, n) == Some(a[k])
        }
}

proof fn lemma_pieces_split(fs: PlixEveryfile, stack: Seq<usize>, d: int)
    requires
        0 <= d <= stack.len(),
    ensures
        path_pieces(fs, stack, 0) == path_pieces(fs, stack, d) + path_rest(fs, stack, d),
    decreases d,
{
    if d == 0 {
        assert(path_pieces(fs, stack, 0) + Seq::<u8>::empty() =~= path_pieces(fs, stack, 0));
    } else {
        lemma_pieces_split(fs, stack, d - 1);
        assert(path_pieces(fs, stack, d - 1) == path_pieces(fs, stack, d) + path_piece(fs, stack, d - 1));
        assert(path_pieces(fs, stack, 0) =~= path_pieces(fs, stack, d) + path_rest(fs, stack, d));
    }
}

proof fn lemma_rest_no_zero(fs: PlixEveryfile, stack: Seq<usize>, d: int)
    ensures
        forall|j: int| 0 <= j < path_rest(fs, stack, d).len() ==> path_rest(fs, stack, d)[j] != 0,
    decreases d,
{
    if 0 < d <= stack.len() {
        lemma_rest_no_zero(fs, stack, d - 1);
        let name = name_of(fs, stack[d - 1] as int);
        lemma_cstr_no_zero(fs.nodes[stack[d - 1] as int].name@);
        let piece = path_piece(fs, stack, d - 1);
        assert forall|j: int| 0 <= j < piece.len() implies piece[j] != 0 by {
            if name.len() > 0 && j < name.len() {
                assert(piece[j] == name[j]);
            }
        }
        let rest = path_rest(fs, stack, d);
        assert forall|j: int| 0 <= j < rest.len() implies rest[j] != 0 by {
            if j < piece.len() {
                assert(rest[j] == piece[j]);
            } else {
                assert(rest[j] == path_rest(fs, stack, d - 1)[j - piece.len()]);
            }
        }
    }
}

proof fn lemma_walk_rest(fs: PlixEveryfile, d: int)
    requires
        addressable(fs),
        0 <= d < ancestors(fs, fs.current as int).len(),
    ensures
        ({
            let a = ancestors(fs, fs.current as int);
            walk(fs, a[d], path_rest(fs, a, d)) == Some(a[0])
        }),
    decreases d,
{
    let a = ancestors(fs, fs.current as int);
    if d > 0 {
        lemma_walk_rest(fs, d - 1);
        let name = name_of(fs, a[d - 1] as int);
        assert(name.len() > 0 && name == name_of(fs, a[d - 1] as int));
        let below = path_rest(fs, a, d - 1);
        let rest = path_rest(fs, a, d);
        let piece = path_piece(fs, a, d - 1);
        assert(rest == piece + below);
        if d - 1 > 0 {
            assert(piece == name + seq![SLASH]);
            lemma_slash_at(rest, 0, name.len() as int);
            assert(rest.subrange(0, name.len() as int) =~= name);
            assert(rest.subrange(name.len() as int + 1, rest.len() as int) =~= below);
        } else {
            assert(piece == name);
            assert(below =~= Seq::<u8>::empty());
            lemma_slash_at(rest, 0, name.len() as int);
            assert(rest.subrange(0, name.len() as int) =~= name);
            assert(rest.subrange(rest.len() as int, rest.len() as int) =~= below);
        }
        assert(step(fs, a[d], name) == Some(a[d - 1]));
    }
}

/// Going to the current directory's path leads back to the current directory,
/// when the directories on the way can be named by a path.
pub proof fn law_goto_current_path(fs: PlixEveryfile)
    requires
        fs.wf(),
        addressable(fs),
    ensures
        goto_target(fs, current_path(fs)) == Some(fs.current),
{
    let a = ancestors(fs, fs.current as int);
    let len = a.len() as int;
    assert(path_stack(fs) == a);
    lemma_pieces_split(fs, a, len);
    assert(path_pieces(fs, a, len) =~= Seq::<u8>::empty());
    let pieces = path_pieces(fs, a, 0);
    assert(pieces =~= path_rest(fs, a, len));
    assert(path_piece(fs, a, len - 1) =~= Seq::<u8>::empty());
    assert(path_rest(fs, a, len) =~= path_rest(fs, a, len - 1));
    let full = current_path(fs);
    lemma_rest_no_zero(fs, a, len);
    assert forall|j: int| 0 <= j < full.len() implies full[j] != 0 by {
        if j > 0 {
            assert(full[j] == pieces[j - 1]);
        }
    }
    lemma_cstr_of_plain(full);
    assert(full.subrange(1, full.len() as int) =~= path_rest(fs, a, len - 1));
    lemma_walk_rest(fs, len - 1);
    assert(a[0] == fs.current) by {
        assert(node_wf(fs.nodes@, fs.current as int));
    }
}

/// The names of the initial tree's directories, as bytes.
proof fn lemma_initial_names()
    ensures
        cstr("users".spec_bytes()) == seq![117u8, 115u8, 101u8, 114u8, 115u8],
        cstr("root".spec_bytes()) == seq![114u8, 111u8, 111u8, 116u8],
        cstr("main".spec_bytes()) == seq![109u8, 97u8, 105u8, 110u8],
        cstr("house".spec_bytes()) == seq![104u8, 111u8, 117u8, 115u8, 101u8],
        cstr("guest".spec_bytes()) == seq![103u8, 117u8, 101u8, 115u8, 116u8],
        cstr("".spec_bytes()) == Seq::<u8>::empty(),
{
    assert("users".spec_bytes() =~= seq![117u8, 115u8, 101u8, 114u8, 115u8]) by {
        reveal_strlit("users");
        vstd::string::is_ascii_spec_bytes("users");
    }
    lemma_cstr_of_plain("users".spec_bytes());
    assert("root".spec_bytes() =~= seq![114u8, 111u8, 111u8, 116u8]) by {
        reveal_strlit("root");
        vstd::string::is_ascii_spec_bytes("root");
    }
    lemma_cstr_of_plain("root".spec_bytes());
    assert("main".spec_bytes() =~= seq![109u8, 97u8, 105u8, 110u8]) by {
        reveal_strlit("main");
        vstd::string::is_ascii_spec_bytes("main");
    }
    lemma_cstr_of_plain("main".spec_bytes());
    assert("house".spec_bytes() =~= seq![104u8, 111u8, 117u8, 115u8, 101u8]) by {
        reveal_strlit("house");
        vstd::string::is_ascii_spec_bytes("house");
    }
    lemma_cstr_of_plain("house".spec_bytes());
    assert("guest".spec_bytes() =~= seq![103u8, 117u8, 101u8, 115u8, 116u8]) by {
        reveal_strlit("guest");
        vstd::string::is_ascii_spec_bytes("guest");
    }
    lemma_cstr_of_plain("guest".spec_bytes());
    assert("".spec_bytes() =~= Seq::<u8>::empty()) by {
        reveal_strlit("");
        vstd::string::is_ascii_spec_bytes("");
    }
    lemma_cstr_of_plain("".spec_bytes());
}

/// In the initial tree every directory can be named by its path, so going to
/// the path of the current directory leads back to it.
pub proof fn law_initial_tree_addressable(fs: PlixEveryfile, home: usize)
    requires
        fs.wf(),
        is_initial_tree_at(fs, home),
        home < 12,
        fs.nodes[home as int].kind == DIRECTORY,
    ensures
        addressable(fs),
        goto_target(fs, current_path(fs)) == Some(home),
{
    lemma_initial_names();
    let n0 = name_of(fs, 0);
    let a = ancestors(fs, home as int);
    assert(name_of(fs, 1) == seq![117u8, 115u8, 101u8, 114u8, 115u8]);
    assert(name_of(fs, 2) == seq![114u8, 111u8, 111u8, 116u8]);
    assert(name_of(fs, 3) == seq![109u8, 97u8, 105u8, 110u8]);
    assert(name_of(fs, 4) == seq![104u8, 111u8, 117u8, 115u8, 101u8]);
    assert(name_of(fs, 7) == seq![103u8, 117u8, 101u8, 115u8, 116u8]);
    assert(name_of(fs, 8) == seq![109u8, 97u8, 105u8, 110u8]);
    assert(name_of(fs, 9) == seq![104u8, 111u8, 117u8, 115u8, 101u8]);
    assert(n0.len() == 0);
    assert(ancestors(fs, 0) =~= seq![0usize]);
    assert(ancestors(fs, 1) =~= seq![1usize, 0usize]);
    assert(ancestors(fs, 2) =~= seq![2usize, 1usize, 0usize]);
    assert(ancestors(fs, 7) =~= seq![7usize, 1usize, 0usize]);
    assert(ancestors(fs, 3) =~= seq![3usize, 2usize, 1usize, 0usize]);
    assert(ancestors(fs, 4) =~= seq![4usize, 2usize, 1usize, 0usize]);
    assert(ancestors(fs, 8) =~= seq![8usize, 7usize, 1usize, 0usize]);
    assert(ancestors(fs, 9) =~= seq![9usize, 7usize, 1usize, 0usize]);
    assert(child_named(fs, 0, name_of(fs, 1)) == Some(1usize));
    assert(child_named(fs, 1, name_of(fs, 2)) == Some(2usize));
    assert(find_child_from(fs, 1, name_of(fs, 7), 1) == Some(7usize));
    assert(name_of(fs, 2) != name_of(fs, 7));
    assert(child_named(fs, 1, name_of(fs, 7)) == Some(7usize));
    assert(child_named(fs, 2, name_of(fs, 3)) == Some(3usize));
    assert(find_child_from(fs, 2, name_of(fs, 4), 1) == Some(4usize));
    assert(name_of(fs, 3) != name_of(fs, 4));
    assert(child_named(fs, 2, name_of(fs, 4)) == Some(4usize));
    assert(child_named(fs, 7, name_of(fs, 8)) == Some(8usize));
    assert(find_child_from(fs, 7, name_of(fs, 9), 1) == Some(9usize));
    assert(name_of(fs, 8) != name_of(fs, 9));
    assert(child_named(fs, 7, name_of(fs, 9)) == Some(9usize));
    assert(home == 0 || home == 1 || home == 2 || home == 3 || home == 4 || home == 7 || home == 8 || home == 9);
    assert forall|k: int| 0 <= k < a.len() - 1 implies {
        let n = #[trigger] name_of(fs, a[k] as int);
        &&& n.len() > 0
        &&& forall|j: int| 0 <= j < n.len() ==> n[j] != SLASH
        &&& n != seq![DOT]
        &&& n != seq![DOT, DOT]
        &&& fs.nodes[a[k] as int].kind == DIRECTORY
        &&& child_named(fs, a[k + 1] as int, n) == Some(a[k])
    } by {
        let n = name_of(fs, a[k] as int);
        assert(n.len() >= 4);
    }
    law_goto_current_path(fs);
}

/// The path `..` leads to the parent of the current directory whenever it has
/// one; only a directory without a parent stays where it is.
pub proof fn law_goto_dotdot(fs: PlixEveryfile, path: Seq<u8>)
    requires
        fs.wf(),
        cstr(path) == seq![DOT, DOT],
    ensures
        goto_target(fs, path) == Some(match fs.nodes[fs.current as int].parent {
            Some(p) => p,
            None => fs.current,
        }),
        fs.nodes[fs.current as int].parent matches Some(p) ==> goto_target(fs, path) == Some(p) && p != fs.current,
{
    let p = cstr(path);
    lemma_slash_at(p, 0, 2);
    assert(p.subrange(0, 2) =~= p);
    assert(p.subrange(2, 2) =~= Seq::<u8>::empty());
    assert(p.subrange(0, 2) != seq![DOT]) by {
        assert(p.subrange(0, 2).len() != seq![DOT].len());
    }
    assert(node_wf(fs.nodes@, fs.current as int));
    assert(p[0] != SLASH);
    let target = match fs.nodes[fs.current as int].parent {
        Some(q) => q,
        None => fs.current,
    };
    assert(step(fs, fs.current, p.subrange(0, 2)) == Some(target));
    assert(walk(fs, target, p.subrange(2, 2)) == Some(target));
    assert(walk(fs, fs.current, p) == Some(target));
}

/// A step `..` from any node goes to its parent whenever it has one.
pub proof fn law_dotdot_step(fs: PlixEveryfile, c: usize)
    requires
        fs.wf(),
        c < fs.nodes.len(),
    ensures
        fs.nodes[c as int].parent matches Some(p) ==> step(fs, c, seq![DOT, DOT]) == Some(p),
        fs.nodes[c as int].parent is None ==> step(fs, c, seq![DOT, DOT]) == Some(c),
{
    assert(seq![DOT, DOT] != seq![DOT]) by {
        assert(seq![DOT, DOT].len() != seq![DOT].len());
    }
}

/// Empty components and `.` leave the walk where it is: a path that starts
/// with `/` or with `./` leads, from any directory, where the rest of it leads
/// from there, and `.` alone stays in place.
pub proof fn law_dot_and_empty_components_stay(fs: PlixEveryfile, c: usize, rest: Seq<u8>)
    ensures
        step(fs, c, seq![DOT]) == Some(c),
        step(fs, c, Seq::<u8>::empty()) == Some(c),
        walk(fs, c, seq![SLASH] + rest) == walk(fs, c, rest),
        walk(fs, c, seq![DOT, SLASH] + rest) == walk(fs, c, rest),
        walk(fs, c, seq![DOT]) == Some(c),
{
    let a = seq![SLASH] + rest;
    assert(slash_at(a, 0) == 0);
    assert(a.subrange(0, 0) =~= Seq::<u8>::empty());
    assert(a.subrange(1, a.len() as int) =~= rest);
    let b = seq![DOT, SLASH] + rest;
    assert(b[0] == DOT && b[1] == SLASH);
    assert(slash_at(b, 1) == 1);
    assert(slash_at(b, 0) == 1);
    assert(b.subrange(0, 1) =~= seq![DOT]);
    assert(b.subrange(2, b.len() as int) =~= rest);
    let d = seq![DOT];
    assert(slash_at(d, 1) == 1);
    assert(slash_at(d, 0) == 1);
    assert(d.subrange(0, 1) =~= d);
    assert(d.subrange(1, 1) =~= Seq::<u8>::empty());
    assert(walk(fs, c, Seq::<u8>::empty()) == Some(c));
}

proof fn lemma_find_child_from(fs: PlixEveryfile, node: int, seg: Seq<u8>, k: int)
    requires
        0 <= k,
    ensures
        match find_child_from(fs, node, seg, k) {
            Some(n) => exists|j: int|
                k <= j < fs.nodes[node].children.len() && #[trigger] fs.nodes[node].children[j] == n
                    && name_of(fs, n as int) == seg
                    && forall|i: int| k <= i < j ==> name_of(fs, #[trigger] fs.nodes[node].children[i] as int) != seg,
            None => forall|i: int|
                k <= i < fs.nodes[node].children.len() ==> name_of(fs, #[trigger] fs.nodes[node].children[i] as int) != seg,
        },
    decreases fs.nodes[node].children.len() - k,
{
    if k < fs.nodes[node].children.len() {
        lemma_find_child_from(fs, node, seg, k + 1);
        if name_of(fs, fs.nodes[node].children[k] as int) == seg {
            assert(fs.nodes[node].children[k] == fs.nodes[node].children[k]);
        } else {
            match find_child_from(fs, node, seg, k + 1) {
                Some(n) => {
                    let j = choose|j: int|
                        k + 1 <= j < fs.nodes[node].children.len() && #[trigger] fs.nodes[node].children[j] == n
                            && name_of(fs, n as int) == seg
                            && forall|i: int| k + 1 <= i < j ==> name_of(fs, #[trigger] fs.nodes[node].children[i] as int) != seg;
                    assert(fs.nodes[node].children[j] == n);
                },
                None => {},
            }
        }
    }
}

/// A named component leads to the first entry of the directory with exactly
/// that name, provided it is a directory; it fails when no entry has that name
/// or when the first such entry is a file.
pub proof fn law_named_component(fs: PlixEveryfile, c: usize, seg: Seq<u8>)
    requires
        seg.len() > 0,
        seg != seq![DOT],
        seg != seq![DOT, DOT],
    ensures
        (forall|i: int|
            0 <= i < fs.nodes[c as int].children.len() ==> name_of(fs, #[trigger] fs.nodes[c as int].children[i] as int) != seg)
            ==> step(fs, c, seg) is None,
        step(fs, c, seg) matches Some(n) ==> exists|j: int|
            0 <= j < fs.nodes[c as int].children.len() && #[trigger] fs.nodes[c as int].children[j] == n
                && name_of(fs, n as int) == seg
                && fs.nodes[n as int].kind == DIRECTORY
                && forall|i: int| 0 <= i < j ==> name_of(fs, #[trigger] fs.nodes[c as int].children[i] as int) != seg,
        forall|j: int|
            0 <= j < fs.nodes[c as int].children.len()
                && name_of(fs, #[trigger] fs.nodes[c as int].children[j] as int) == seg
                && (forall|i: int| 0 <= i < j ==> name_of(fs, #[trigger] fs.nodes[c as int].children[i] as int) != seg)
                ==> step(fs, c, seg) == if fs.nodes[fs.nodes[c as int].children[j] as int].kind == DIRECTORY {
                    Some(fs.nodes[c as int].children[j])
                } else {
                    None::<usize>
                },
{
    lemma_find_child_from(fs, c as int, seg, 0);
    assert forall|j: int|
        0 <= j < fs.nodes[c as int].children.len()
            && name_of(fs, #[trigger] fs.nodes[c as int].children[j] as int) == seg
            && (forall|i: int| 0 <= i < j ==> name_of(fs, #[trigger] fs.nodes[c as int].children[i] as int) != seg)
        implies child_named(fs, c as int, seg) == Some(fs.nodes[c as int].children[j]) by {
        match child_named(fs, c as int, seg) {
            Some(n) => {
                let j2 = choose|j2: int|
                    0 <= j2 < fs.nodes[c as int].children.len() && #[trigger] fs.nodes[c as int].children[j2] == n
                        && name_of(fs, n as int) == seg
                        && forall|i: int| 0 <= i < j2 ==> name_of(fs, #[trigger] fs.nodes[c as int].children[i] as int) != seg;
                if j2 < j {
                    assert(name_of(fs, fs.nodes[c as int].children[j2] as int) != seg);
                } else if j < j2 {
                    assert(name_of(fs, fs.nodes[c as int].children[j] as int) != seg);
                }
            },
            None => {
                assert(name_of(fs, fs.nodes[c as int].children[j] as int) != seg);
            },
        }
    }
}

/// Looking an entry up by name (as `enter_user` does in the users directory)
/// finds the first entry of the directory with exactly that name, and finds
/// nothing exactly when no entry has that name.
pub proof fn law_child_named_is_first_match(fs: PlixEveryfile, node: int, seg: Seq<u8>)
    ensures
        (child_named(fs, node, seg) is None) <==> (forall|i: int|
            0 <= i < fs.nodes[node].children.len() ==> name_of(fs, #[trigger] fs.nodes[node].children[i] as int) != seg),
        child_named(fs, node, seg) matches Some(n) ==> exists|j: int|
            0 <= j < fs.nodes[node].children.len() && #[trigger] fs.nodes[node].children[j] == n
                && name_of(fs, n as int) == seg
                && forall|i: int| 0 <= i < j ==> name_of(fs, #[trigger] fs.nodes[node].children[i] as int) != seg,
{
    lemma_find_child_from(fs, node, seg, 0);
    match child_named(fs, node, seg) {
        Some(n) => {
            let j = choose|j: int|
                0 <= j < fs.nodes[node].children.len() && #[trigger] fs.nodes[node].children[j] == n
                    && name_of(fs, n as int) == seg
                    && forall|i: int| 0 <= i < j ==> name_of(fs, #[trigger] fs.nodes[node].children[i] as int) != seg;
            assert(name_of(fs, fs.nodes[node].children[j] as int) == seg);
        },
        None => {},
    }
}

proof fn lemma_path_pieces_shift(fs: PlixEveryfile, a: Seq<usize>, n: usize, d: int)
    requires
        1 <= d <= a.len(),
    ensures
        path_pieces(fs, seq![n] + a, d + 1) == path_pieces(fs, a, d),
    decreases a.len() - d,
{
    let s2 = seq![n] + a;
    if d < a.len() {
        lemma_path_pieces_shift(fs, a, n, d + 1);
        assert(s2[d + 1] == a[d]);
        assert(path_piece(fs, s2, d + 1) == path_piece(fs, a, d));
    }
}

/// Moving into a named subdirectory of the current directory extends the
/// rendered path by that name: after `/` alone at the (unnamed) root, after a
/// `/` elsewhere, while the path is not cut at `MAX_PATH_DEPTH` directories.
pub proof fn law_path_of_subdirectory(fs: PlixEveryfile, after: PlixEveryfile, n: usize)
    requires
        fs.wf(),
        fs.moved_to(after, n),
        n < fs.nodes.len(),
        fs.nodes[n as int].parent == Some(fs.current),
        ancestors(fs, fs.current as int).len() < MAX_PATH_DEPTH,
        name_of(fs, n as int).len() > 0,
    ensures
        current_path(after) == current_path(fs) + (if name_of(fs, fs.current as int).len() == 0 {
            Seq::<u8>::empty()
        } else {
            seq![SLASH]
        }) + name_of(fs, n as int),
{
    let cur = fs.current as int;
    let a = ancestors(fs, cur);
    assert(node_wf(fs.nodes@, n as int));
    assert(fs.current < n);
    assert(after.nodes@ == fs.nodes@);
    assert(after.nodes[n as int].parent == Some(fs.current));
    assert(0 <= n < after.nodes.len());
    assert(fs.current < n as int);
    assert(ancestors(after, n as int) =~= seq![n] + ancestors(after, cur)) by {
        reveal_with_fuel(ancestors, 2);
    }
    lemma_ancestors_same_nodes(fs, after, cur);
    assert(a.len() >= 1 && a[0] == fs.current) by {
        assert(node_wf(fs.nodes@, cur));
    }
    let s2 = seq![n] + a;
    assert(path_stack(after) == s2);
    assert(path_stack(fs) == a);
    assert(name_of(after, n as int) == name_of(fs, n as int));
    lemma_path_pieces_shift(after, a, n, 1);
    assert(path_pieces(after, a, 1) == path_pieces(fs, a, 1)) by {
        lemma_path_pieces_same_nodes(fs, after, a, 1);
    }
    assert(s2[1] == a[0]);
    assert(path_piece(after, s2, 0) == name_of(fs, n as int));
    assert(path_piece(after, s2, 1) == if name_of(fs, cur).len() == 0 {
        Seq::<u8>::empty()
    } else {
        name_of(fs, cur) + seq![SLASH]
    });
    assert(path_piece(fs, a, 0) == name_of(fs, cur));
    assert(path_pieces(after, s2, 2) == path_pieces(fs, a, 1));
    assert(path_pieces(after, s2, 1) == path_pieces(after, s2, 2) + path_piece(after, s2, 1));
    assert(path_pieces(after, s2, 0) == path_pieces(after, s2, 1) + path_piece(after, s2, 0));
    assert(path_pieces(after, s2, 0) =~= path_pieces(fs, a, 1) + path_piece(after, s2, 1) + name_of(fs, n as int));
    assert(path_pieces(fs, a, 0) == path_pieces(fs, a, 1) + name_of(fs, cur));
    assert(current_path(after) =~= current_path(fs) + (if name_of(fs, cur).len() == 0 {
        Seq::<u8>::empty()
    } else {
        seq![SLASH]
    }) + name_of(fs, n as int));
}

proof fn lemma_ancestors_same_nodes(fs: PlixEveryfile, other: PlixEveryfile, i: int)
    requires
        other.nodes == fs.nodes,
    ensures
        ancestors(other, i) == ancestors(fs, i),
    decreases i,
{
    if 0 <= i < fs.nodes.len() {
        match fs.nodes[i].parent {
            Some(p) => if p < i {
                lemma_ancestors_same_nodes(fs, other, p as int);
            },
            None => {},
        }
    }
}

proof fn lemma_path_pieces_same_nodes(fs: PlixEveryfile, other: PlixEveryfile, a: Seq<usize>, d: int)
    requires
        other.nodes == fs.nodes,
        0 <= d,
    ensures
        path_pieces(other, a, d) == path_pieces(fs, a, d),
    decreases a.len() - d,
{
    if d < a.len() {
        lemma_path_pieces_same_nodes(fs, other, a, d + 1);
    }
}

} // verus!
