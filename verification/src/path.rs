//! Paths as sequences of components.
//!
//! A path is held as its components, in the way the standard library splits a path: a drive
//! prefix, the root, `.`, `..`, and names. What the viewer asks of a path (its parent, its file
//! name, its extension, whether it lies under another) is a question about that sequence.

use vstd::prelude::*;

use crate::text::{copy_text, same_text};

verus! {

/// One component of a path.
#[derive(Clone, Debug, PartialEq, Eq, Hash)]
pub enum PathPart {
    /// A drive or share prefix.
    Prefix(String),
    /// The root directory.
    Root,
    /// The directory itself, `.`.
    Current,
    /// The directory above, `..`.
    Above,
    /// A name.
    Name(String),
}

/// The mathematical form of a component.
pub enum PartView {
    Prefix(Seq<char>),
    Root,
    Current,
    Above,
    Name(Seq<char>),
}

impl View for PathPart {
    type V = PartView;

    open spec fn view(&self) -> PartView {
        match *self {
            PathPart::Prefix(s) => PartView::Prefix(s@),
            PathPart::Root => PartView::Root,
            PathPart::Current => PartView::Current,
            PathPart::Above => PartView::Above,
            PathPart::Name(s) => PartView::Name(s@),
        }
    }
}

impl PathPart {
    /// Whether two components are the same.
    pub fn same(&self, other: &PathPart) -> (r: bool)
        ensures
            r == (self@ == other@),
    {
        match (self, other) {
            (PathPart::Prefix(a), PathPart::Prefix(b)) => same_text(a.as_str(), b.as_str()),
            (PathPart::Name(a), PathPart::Name(b)) => same_text(a.as_str(), b.as_str()),
            (PathPart::Root, PathPart::Root) => true,
            (PathPart::Current, PathPart::Current) => true,
            (PathPart::Above, PathPart::Above) => true,
            _ => false,
        }
    }

    /// A copy of the component.
    pub fn copied(&self) -> (r: PathPart)
        ensures
            r@ == self@,
    {
        match self {
            PathPart::Prefix(s) => PathPart::Prefix(copy_text(s.as_str())),
            PathPart::Root => PathPart::Root,
            PathPart::Current => PathPart::Current,
            PathPart::Above => PathPart::Above,
            PathPart::Name(s) => PathPart::Name(copy_text(s.as_str())),
        }
    }
}

/// A path.
#[derive(Clone, Debug, PartialEq, Eq, Hash)]
pub struct MediaPath {
    pub parts: Vec<PathPart>,
}

/// The mathematical form of a path: its components in order.
pub type PathView = Seq<PartView>;

/// The views of a sequence of components.
pub open spec fn part_views(parts: Seq<PathPart>) -> PathView {
    parts.map_values(|p: PathPart| p@)
}

/// The views of a sequence of paths.
pub open spec fn path_views(paths: Seq<MediaPath>) -> Seq<PathView> {
    paths.map_values(|p: MediaPath| p@)
}

impl View for MediaPath {
    type V = PathView;

    open spec fn view(&self) -> PathView {
        part_views(self.parts@)
    }
}

/// The path without its last component. A path that is empty or ends in a root or a prefix has
/// no parent.
pub open spec fn parent_of(p: PathView) -> Option<PathView> {
    if p.len() == 0 || p.last() is Root || p.last() is Prefix {
        None
    } else {
        Some(p.drop_last())
    }
}

/// The last component, if it is a name.
pub open spec fn file_name_of(p: PathView) -> Option<Seq<char>> {
    if p.len() > 0 && p.last() is Name {
        Some(p.last()->Name_0)
    } else {
        None
    }
}

/// The file name, or the empty text where there is none.
pub open spec fn file_name_or_empty(p: PathView) -> Seq<char> {
    match file_name_of(p) {
        Some(name) => name,
        None => Seq::empty(),
    }
}

/// Whether `ext` is what follows the last dot of `name`. A name has no extension when it has no
/// dot, or none but its first character.
pub open spec fn is_extension_of(ext: Seq<char>, name: Seq<char>) -> bool {
    exists|dot: int|
        {
            &&& 0 < dot < name.len()
            &&& name[dot] == '.'
            &&& ext == #[trigger] name.subrange(dot + 1, name.len() as int)
            &&& !ext.contains('.')
        }
}

/// Whether the path lies at or under `base`: the components of `base` are its first ones.
pub open spec fn lies_under(p: PathView, base: PathView) -> bool {
    base.len() <= p.len() && p.take(base.len() as int) == base
}

/// The number of leading components that two paths share.
pub open spec fn common_len(a: PathView, b: PathView) -> nat
    decreases a.len(),
{
    if a.len() == 0 || b.len() == 0 || a[0] != b[0] {
        0
    } else {
        1 + common_len(a.drop_first(), b.drop_first())
    }
}

/// The longest path that both paths lie under.
pub open spec fn common_ancestor(a: PathView, b: PathView) -> PathView {
    a.take(common_len(a, b) as int)
}

/// The text of one component, where `separator` is what the system writes between components.
pub open spec fn part_text(p: PartView, separator: Seq<char>) -> Seq<char> {
    match p {
        PartView::Prefix(s) => s,
        PartView::Root => separator,
        PartView::Current => "."@,
        PartView::Above => ".."@,
        PartView::Name(s) => s,
    }
}

/// The components from `from` on, joined by separators. A prefix and a root are followed by no
/// separator of their own.
pub open spec fn joined_text(p: PathView, from: int, separator: Seq<char>) -> Seq<char>
    decreases p.len() - from,
{
    if from < 0 || from >= p.len() {
        Seq::empty()
    } else if from == p.len() - 1 || p[from] is Root || p[from] is Prefix {
        part_text(p[from], separator) + joined_text(p, from + 1, separator)
    } else {
        part_text(p[from], separator) + separator + joined_text(p, from + 1, separator)
    }
}

/// Any two paths have equally many leading components in common with each other, no more than
/// either has.
pub proof fn lemma_common_len(a: PathView, b: PathView)
    ensures
        common_len(a, b) <= a.len(),
        common_len(a, b) <= b.len(),
        common_len(a, b) == common_len(b, a),
        forall|i: int| 0 <= i < common_len(a, b) ==> a[i] == b[i],
        common_len(a, b) < a.len() && common_len(a, b) < b.len() ==> a[common_len(a, b) as int]
            != b[common_len(a, b) as int],
    decreases a.len(),
{
    if a.len() == 0 || b.len() == 0 || a[0] != b[0] {
    } else {
        let (a1, b1) = (a.drop_first(), b.drop_first());
        lemma_common_len(a1, b1);
        let n = common_len(a1, b1);
        assert forall|i: int| 0 <= i < common_len(a, b) implies a[i] == b[i] by {
            if i > 0 {
                assert(a1[i - 1] == b1[i - 1]);
            }
        }
        if n + 1 < a.len() && n + 1 < b.len() {
            assert(a1[n as int] != b1[n as int]);
        }
    }
}

/// A common ancestor is an ancestor of both paths, and every path that both lie under is an
/// ancestor of it.
pub proof fn lemma_common_ancestor(a: PathView, b: PathView)
    ensures
        lies_under(a, common_ancestor(a, b)),
        lies_under(b, common_ancestor(a, b)),
        common_ancestor(a, b) == common_ancestor(b, a),
        forall|p: PathView| #[trigger]
            lies_under(a, p) && lies_under(b, p) ==> lies_under(common_ancestor(a, b), p),
{
    lemma_common_len(a, b);
    let n = common_len(a, b) as int;
    assert(b.take(n) =~= a.take(n));
    assert forall|p: PathView| #[trigger] lies_under(a, p) && lies_under(b, p) implies lies_under(
        common_ancestor(a, b),
        p,
    ) by {
        let m = p.len() as int;
        if m > n {
            assert(a[n] == a.take(m)[n]);
            assert(b[n] == b.take(m)[n]);
        }
        assert(a.take(n).take(m) =~= a.take(m));
    }
}

/// Lying under is reflexive and transitive.
pub proof fn lemma_lies_under_order(a: PathView, b: PathView, c: PathView)
    ensures
        lies_under(a, a),
        lies_under(a, b) && lies_under(b, c) ==> lies_under(a, c),
{
    assert(a.take(a.len() as int) =~= a);
    if lies_under(a, b) && lies_under(b, c) {
        assert(a.take(c.len() as int) =~= b.take(c.len() as int));
    }
}

/// A child lies under its parent and is not its parent.
pub proof fn lemma_parent_is_ancestor(p: PathView)
    requires
        parent_of(p) is Some,
    ensures
        lies_under(p, parent_of(p)->0),
        parent_of(p)->0 != p,
{
    assert(p.take(p.len() - 1) =~= p.drop_last());
}

impl MediaPath {
    /// The path with the given components.
    pub fn new(parts: Vec<PathPart>) -> (r: MediaPath)
        ensures
            r@ == part_views(parts@),
    {
        MediaPath { parts }
    }

    /// Whether two paths are the same.
    pub fn same(&self, other: &MediaPath) -> (r: bool)
        ensures
            r == (self@ == other@),
    {
        if self.parts.len() != other.parts.len() {
            assert(self@.len() != other@.len());
            return false;
        }
        let n: usize = self.parts.len();
        let mut i: usize = 0;
        while i < n
            invariant
                i <= n,
                n == self.parts@.len(),
                n == other.parts@.len(),
                forall|j: int| 0 <= j < i ==> self@[j] == other@[j],
            decreases n - i,
        {
            if !self.parts[i].same(&other.parts[i]) {
                assert(self@[i as int] != other@[i as int]);
                return false;
            }
            i += 1;
        }
        assert(self@ =~= other@);
        true
    }

    /// The path made of the first `n` components.
    pub fn first_parts(&self, n: usize) -> (r: MediaPath)
        requires
            n <= self@.len(),
        ensures
            r@ == self@.take(n as int),
    {
        let mut parts: Vec<PathPart> = Vec::new();
        let mut i: usize = 0;
        while i < n
            invariant
                i <= n <= self.parts@.len(),
                parts@.len() == i,
                forall|j: int| 0 <= j < i ==> (#[trigger] parts@[j])@ == self.parts@[j]@,
            decreases n - i,
        {
            parts.push(self.parts[i].copied());
            i += 1;
        }
        assert(part_views(parts@) =~= self@.take(n as int));
        MediaPath { parts }
    }

    /// A copy of the path.
    pub fn copied(&self) -> (r: MediaPath)
        ensures
            r@ == self@,
    {
        let r = self.first_parts(self.parts.len());
        assert(self@.take(self@.len() as int) =~= self@);
        r
    }

    /// The path without its last component.
    pub fn parent(&self) -> (r: Option<MediaPath>)
        ensures
            match r {
                Some(p) => parent_of(self@) == Some(p@),
                None => parent_of(self@) is None,
            },
    {
        let n: usize = self.parts.len();
        if n == 0 {
            return None;
        }
        let ghost last = self@.last();
        match &self.parts[n - 1] {
            PathPart::Root => {
                assert(last is Root);
                None
            },
            PathPart::Prefix(_) => {
                assert(last is Prefix);
                None
            },
            _ => {
                assert(!(last is Root) && !(last is Prefix));
                let r = self.first_parts(n - 1);
                assert(self@.take(n - 1) =~= self@.drop_last());
                Some(r)
            },
        }
    }

    /// The last component, if it is a name.
    pub fn file_name(&self) -> (r: Option<&str>)
        ensures
            match r {
                Some(s) => file_name_of(self@) == Some(s@),
                None => file_name_of(self@) is None,
            },
    {
        let n: usize = self.parts.len();
        if n == 0 {
            return None;
        }
        let ghost last = self@.last();
        match &self.parts[n - 1] {
            PathPart::Name(s) => {
                assert(last == PartView::Name(s@));
                Some(s.as_str())
            },
            _ => {
                assert(!(last is Name));
                None
            },
        }
    }

    /// The file name, or the empty text where there is none.
    pub fn file_name_text(&self) -> (r: String)
        ensures
            r@ == file_name_or_empty(self@),
    {
        match self.file_name() {
            Some(s) => copy_text(s),
            None => String::new(),
        }
    }

    /// What follows the last dot of the file name, unless that dot is the first character.
    pub fn extension(&self) -> (r: Option<&str>)
        ensures
            match r {
                Some(e) => file_name_of(self@) is Some && is_extension_of(
                    e@,
                    file_name_of(self@)->0,
                ),
                None => match file_name_of(self@) {
                    Some(name) => forall|e: Seq<char>| !is_extension_of(e, name),
                    None => true,
                },
            },
    {
        let name = match self.file_name() {
            Some(s) => s,
            None => {
                return None;
            },
        };
        let n: usize = name.unicode_len();
        let mut dot: usize = n;
        while dot > 0
            invariant_except_break
                dot <= n,
                n == name@.len(),
                forall|i: int| dot <= i < n ==> #[trigger] name@[i] != '.',
            ensures
                dot <= n,
                dot > 0 ==> dot < n && name@[dot as int] == '.' && forall|i: int|
                    dot < i < n ==> #[trigger] name@[i] != '.',
                dot == 0 ==> forall|i: int| 1 <= i < n ==> #[trigger] name@[i] != '.',
            decreases dot,
        {
            dot -= 1;
            if name.get_char(dot) == '.' {
                break;
            }
        }
        if dot == 0 {
            assert forall|e: Seq<char>| !is_extension_of(e, name@) by {}
            None
        } else {
            let e = name.substring_char(dot + 1, n);
            assert(!e@.contains('.')) by {
                if e@.contains('.') {
                    let k = choose|k: int| 0 <= k < e@.len() && e@[k] == '.';
                    assert(name@[dot + 1 + k] == '.');
                }
            }
            Some(e)
        }
    }

    /// Whether the path lies at or under `base`.
    pub fn starts_with(&self, base: &MediaPath) -> (r: bool)
        ensures
            r == lies_under(self@, base@),
    {
        let m: usize = base.parts.len();
        if m > self.parts.len() {
            return false;
        }
        let head = self.first_parts(m);
        head.same(base)
    }

    /// The path with one more name at its end.
    pub fn child(&self, name: &str) -> (r: MediaPath)
        ensures
            r@ == self@.push(PartView::Name(name@)),
    {
        let mut r = self.copied();
        let ghost before = r.parts@;
        r.parts.push(PathPart::Name(copy_text(name)));
        assert(r@ =~= part_views(before).push(PartView::Name(name@)));
        r
    }

    /// The longest path that both paths lie under.
    pub fn common_ancestor(&self, other: &MediaPath) -> (r: MediaPath)
        ensures
            r@ == common_ancestor(self@, other@),
    {
        let mut n: usize = 0;
        proof {
            lemma_common_len(self@, other@);
        }
        while n < self.parts.len() && n < other.parts.len() && self.parts[n].same(&other.parts[n])
            invariant
                n <= common_len(self@, other@),
                common_len(self@, other@) <= self@.len(),
                common_len(self@, other@) <= other@.len(),
                common_len(self@, other@) < self@.len() && common_len(self@, other@) < other@.len()
                    ==> self@[common_len(self@, other@) as int] != other@[common_len(
                    self@,
                    other@,
                ) as int],
                forall|i: int| 0 <= i < common_len(self@, other@) ==> self@[i] == other@[i],
            decreases self.parts.len() - n,
        {
            assert(self@[n as int] == other@[n as int]);
            n += 1;
        }
        assert(n == common_len(self@, other@)) by {
            if n < common_len(self@, other@) {
                assert(self@[n as int] == other@[n as int]);
            }
        }
        self.first_parts(n)
    }

    /// The components from `from` on, joined by separators.
    pub fn text_from(&self, from: usize, separator: &str) -> (r: String)
        ensures
            r@ == joined_text(self@, from as int, separator@),
        decreases self@.len() - from,
    {
        if from >= self.parts.len() {
            return String::new();
        }
        let ghost part = self@[from as int];
        let rest = self.text_from(from + 1, separator);
        let (head, bare): (String, bool) = match &self.parts[from] {
            PathPart::Prefix(s) => (copy_text(s.as_str()), true),
            PathPart::Root => (copy_text(separator), true),
            PathPart::Current => (copy_text("."), false),
            PathPart::Above => (copy_text(".."), false),
            PathPart::Name(s) => (copy_text(s.as_str()), false),
        };
        assert(head@ == part_text(part, separator@));
        let mut r = head;
        if !bare && from + 1 < self.parts.len() {
            r.append(separator);
        }
        r.append(rest.as_str());
        r
    }

    /// The whole path as the system writes it, with its separator between the components.
    pub fn display(&self, separator: &str) -> (r: String)
        ensures
            r@ == joined_text(self@, 0, separator@),
    {
        self.text_from(0, separator)
    }
}

/// The position of the first path in `paths` that is `path`.
pub fn position_of(paths: &Vec<MediaPath>, path: &MediaPath) -> (r: Option<usize>)
    ensures
        match r {
            Some(i) => i < paths@.len() && paths@[i as int]@ == path@ && forall|j: int|
                0 <= j < i ==> (#[trigger] paths@[j])@ != path@,
            None => forall|j: int| 0 <= j < paths@.len() ==> (#[trigger] paths@[j])@ != path@,
        },
{
    let n: usize = paths.len();
    let mut i: usize = 0;
    while i < n
        invariant
            i <= n,
            n == paths@.len(),
            forall|j: int| 0 <= j < i ==> (#[trigger] paths@[j])@ != path@,
        decreases n - i,
    {
        if paths[i].same(path) {
            return Some(i);
        }
        i += 1;
    }
    None
}

} // verus!
