use vstd::prelude::*;

verus! {

/// An array position inside a path: a concrete index, or the wildcard that
/// stands for every index. The wildcard belongs to configured ignore paths
/// only; traversal always records concrete indices.
#[derive(Debug, Clone, Copy, PartialEq, Eq, Structural)]
pub enum ArrayIndex {
    Index(usize),
    All,
}

/// One step of a path: an object key or an array position.
#[derive(Debug, PartialEq)]
pub enum PathElement {
    Key(String),
    ArrayIndex(ArrayIndex),
}

/// The mathematical shape of a path element.
pub enum PathElV {
    Key(Seq<char>),
    ArrayIndex(ArrayIndex),
}

impl DeepView for PathElement {
    type V = PathElV;

    open spec fn deep_view(&self) -> PathElV {
        match self {
            PathElement::Key(s) => PathElV::Key(s@),
            PathElement::ArrayIndex(x) => PathElV::ArrayIndex(*x),
        }
    }
}

impl PathElement {
    /// An exact copy of this path element.
    pub fn dup(&self) -> (r: PathElement)
        ensures
            r == *self,
    {
        match self {
            PathElement::Key(s) => PathElement::Key(s.clone()),
            PathElement::ArrayIndex(x) => PathElement::ArrayIndex(*x),
        }
    }
}

/// A path from the root to a node: the steps taken, in order.
#[derive(Debug, PartialEq)]
pub struct Path(pub Vec<PathElement>);

impl DeepView for Path {
    type V = Seq<PathElV>;

    open spec fn deep_view(&self) -> Seq<PathElV> {
        self.0.deep_view()
    }
}

impl Path {
    /// The empty path, addressing the root.
    pub fn root() -> (r: Path)
        ensures
            r.deep_view() == Seq::<PathElV>::empty(),
    {
        let r = Path(Vec::new());
        proof {
            assert(r.deep_view() =~= Seq::<PathElV>::empty());
        }
        r
    }

    /// An exact copy of this path.
    pub fn dup(&self) -> (r: Path)
        ensures
            r.0@ == self.0@,
    {
        let mut out: Vec<PathElement> = Vec::new();
        let mut i: usize = 0;
        while i < self.0.len()
            invariant
                i <= self.0.len(),
                out@.len() == i,
                forall|k: int| 0 <= k < i ==> out@[k] == self.0@[k],
            decreases self.0.len() - i,
        {
            out.push(self.0[i].dup());
            i = i + 1;
        }
        proof {
            assert(out@ =~= self.0@);
        }
        Path(out)
    }

    /// This path extended by one more step.
    pub fn child(&self, el: PathElement) -> (r: Path)
        ensures
            r.0@ == self.0@.push(el),
            r.deep_view() == self.deep_view().push(el.deep_view()),
    {
        let mut out = self.dup();
        out.0.push(el);
        proof {
            assert(out.deep_view() =~= self.deep_view().push(el.deep_view()));
        }
        out
    }
}

impl From<Vec<PathElement>> for Path {
    fn from(value: Vec<PathElement>) -> (r: Path) {
        Path(value)
    }
}

impl vstd::std_specs::convert::FromSpecImpl<Vec<PathElement>> for Path {
    open spec fn obeys_from_spec() -> bool {
        true
    }

    open spec fn from_spec(value: Vec<PathElement>) -> Path {
        Path(value)
    }
}

impl core::str::FromStr for Path {
    type Err = String;

    fn from_str(s: &str) -> Result<Path, String> {
        match crate::element_path_parser::parse_element_path(s) {
            Ok(elements) => Ok(Path(elements)),
            Err(e) => Err(e),
        }
    }
}

/// A configured ignore rule: the path it addresses, and whether a location
/// that is present on one side only is tolerated there as well.
#[derive(Debug, PartialEq)]
pub struct IgnorePath(pub Path, pub bool);

impl DeepView for IgnorePath {
    type V = (Seq<PathElV>, bool);

    open spec fn deep_view(&self) -> (Seq<PathElV>, bool) {
        (self.0.deep_view(), self.1)
    }
}

/// Whether a configured array position covers an actual one: the wildcard
/// covers every index, a concrete index only itself.
pub open spec fn index_matches(rule: ArrayIndex, actual: ArrayIndex) -> bool {
    match (rule, actual) {
        (ArrayIndex::Index(a), ArrayIndex::Index(b)) => a == b,
        _ => true,
    }
}

/// Whether one path element covers another: keys by equality, array
/// positions by `index_matches`; a key never covers an array position.
pub open spec fn el_matches(rule: PathElV, actual: PathElV) -> bool {
    match (rule, actual) {
        (PathElV::Key(a), PathElV::Key(b)) => a == b,
        (PathElV::ArrayIndex(x), PathElV::ArrayIndex(y)) => index_matches(x, y),
        _ => false,
    }
}

/// Whether a configured path covers a traversal path: same length, and each
/// element covers the one at its position.
pub open spec fn path_matches(rule: Seq<PathElV>, actual: Seq<PathElV>) -> bool {
    &&& rule.len() == actual.len()
    &&& forall|i: int| 0 <= i < rule.len() ==> el_matches(rule[i], actual[i])
}

/// The first configured rule, in configuration order from position `i` on,
/// whose path covers the given traversal path.
pub open spec fn first_match_from(
    rules: Seq<(Seq<PathElV>, bool)>,
    path: Seq<PathElV>,
    i: int,
) -> Option<(Seq<PathElV>, bool)>
    decreases rules.len() - i,
{
    if i < 0 || i >= rules.len() {
        None
    } else if path_matches(rules[i].0, path) {
        Some(rules[i])
    } else {
        first_match_from(rules, path, i + 1)
    }
}

/// The first configured rule whose path covers the given traversal path.
pub open spec fn first_match(
    rules: Seq<(Seq<PathElV>, bool)>,
    path: Seq<PathElV>,
) -> Option<(Seq<PathElV>, bool)> {
    first_match_from(rules, path, 0)
}

/// Whether the node at `path` is ignored. `present` says whether the
/// location exists on the side relevant to the current traversal step: if it
/// does, a matching rule always ignores; if not, the rule ignores only when
/// it was configured to tolerate missing locations.
pub open spec fn is_ignored(
    rules: Seq<(Seq<PathElV>, bool)>,
    path: Seq<PathElV>,
    present: bool,
) -> bool {
    match first_match(rules, path) {
        Some(r) => present || r.1,
        None => false,
    }
}

fn el_matches_exec(rule: &PathElement, actual: &PathElement) -> (r: bool)
    ensures
        r == el_matches(rule.deep_view(), actual.deep_view()),
{
    match (rule, actual) {
        (PathElement::Key(a), PathElement::Key(b)) => *a == *b,
        (PathElement::ArrayIndex(x), PathElement::ArrayIndex(y)) => match (x, y) {
            (ArrayIndex::Index(a), ArrayIndex::Index(b)) => *a == *b,
            _ => true,
        },
        _ => false,
    }
}

/// Whether a configured path covers a traversal path, honoring wildcards.
pub fn path_matches_exec(rule: &Path, actual: &Path) -> (r: bool)
    ensures
        r == path_matches(rule.deep_view(), actual.deep_view()),
{
    if rule.0.len() != actual.0.len() {
        return false;
    }
    let mut i: usize = 0;
    while i < rule.0.len()
        invariant
            i <= rule.0.len(),
            rule.0.len() == actual.0.len(),
            forall|k: int|
                0 <= k < i ==> el_matches(rule.deep_view()[k], actual.deep_view()[k]),
        decreases rule.0.len() - i,
    {
        if !el_matches_exec(&rule.0[i], &actual.0[i]) {
            proof {
                assert(rule.deep_view()[i as int] == rule.0@[i as int].deep_view());
            }
            return false;
        }
        i = i + 1;
    }
    true
}

/// The first matching ignore rule decides; `present` as in `is_ignored`.
pub fn resolve_ignored(rules: &Vec<IgnorePath>, path: &Path, present: bool) -> (r: bool)
    ensures
        r == is_ignored(rules.deep_view(), path.deep_view(), present),
{
    let mut i: usize = 0;
    while i < rules.len()
        invariant
            i <= rules.len(),
            first_match(rules.deep_view(), path.deep_view()) == first_match_from(
                rules.deep_view(),
                path.deep_view(),
                i as int,
            ),
        decreases rules.len() - i,
    {
        if path_matches_exec(&rules[i].0, path) {
            return present || rules[i].1;
        }
        i = i + 1;
    }
    false
}

} // verus!

