//! Paths as sequences of components, with the prefix, join, extension and
//! component queries that the filters and the traversal rely on.
use vstd::prelude::*;

verus! {

/// One component of a path, as the host's path parser reports it.
#[derive(Debug, Clone, PartialEq, Eq)]
pub enum PathComponent {
    RootDir,
    CurDir,
    ParentDir,
    Normal(Vec<u8>),
}

/// Mathematical view of a [`PathComponent`].
pub enum ComponentView {
    Root,
    Current,
    Parent,
    Normal(Seq<u8>),
}

impl View for PathComponent {
    type V = ComponentView;

    open spec fn view(&self) -> ComponentView {
        match self {
            PathComponent::RootDir => ComponentView::Root,
            PathComponent::CurDir => ComponentView::Current,
            PathComponent::ParentDir => ComponentView::Parent,
            PathComponent::Normal(n) => ComponentView::Normal(n@),
        }
    }
}

/// Views of a sequence of components.
pub open spec fn components_view(cs: Seq<PathComponent>) -> Seq<ComponentView> {
    cs.map_values(|c: PathComponent| c@)
}

/// Appending a component appends its view.
pub proof fn lemma_components_view_push(cs: Seq<PathComponent>, c: PathComponent)
    ensures
        components_view(cs.push(c)) == components_view(cs).push(c@),
{
    assert(components_view(cs.push(c)) =~= components_view(cs).push(c@));
}

/// A path, held as its sequence of components.
#[derive(Debug, Clone, PartialEq, Eq)]
pub struct FsPath {
    pub components: Vec<PathComponent>,
}

impl View for FsPath {
    type V = Seq<ComponentView>;

    open spec fn view(&self) -> Seq<ComponentView> {
        components_view(self.components@)
    }
}

/// The text of a component: `/` for the root, `.` and `..` for the relative
/// markers, the name itself otherwise.
pub open spec fn component_text(c: ComponentView) -> Seq<u8> {
    match c {
        ComponentView::Root => seq![47u8],
        ComponentView::Current => seq![46u8],
        ComponentView::Parent => seq![46u8, 46u8],
        ComponentView::Normal(n) => n,
    }
}

/// Some component of `p` reads exactly `name`.
pub open spec fn has_component_spec(p: Seq<ComponentView>, name: Seq<u8>) -> bool {
    exists|i: int| 0 <= i < p.len() && #[trigger] component_text(p[i]) == name
}

/// `p` begins with the components of `prefix`.
pub open spec fn starts_with_spec(p: Seq<ComponentView>, prefix: Seq<ComponentView>) -> bool {
    prefix.len() <= p.len() && p.subrange(0, prefix.len() as int) == prefix
}

/// The components of `base` with `rest` appended: an absolute `rest` replaces
/// `base`, and a leading `.` of `rest` disappears behind a non-empty `base`.
pub open spec fn join_spec(base: Seq<ComponentView>, rest: Seq<ComponentView>) -> Seq<
    ComponentView,
> {
    if rest.len() > 0 && rest[0] == ComponentView::Root {
        rest
    } else if base.len() > 0 && rest.len() > 0 && rest[0] == ComponentView::Current {
        base + rest.drop_first()
    } else {
        base + rest
    }
}

/// The final component, when it is a name.
pub open spec fn file_name_spec(p: Seq<ComponentView>) -> Option<Seq<u8>> {
    if p.len() > 0 && p.last() is Normal {
        Some(p.last()->Normal_0)
    } else {
        None
    }
}

/// Index of the last occurrence of `b` in `s`, or -1.
pub open spec fn last_index_of(s: Seq<u8>, b: u8) -> int
    decreases s.len(),
{
    if s.len() == 0 {
        -1
    } else if s.last() == b {
        s.len() - 1
    } else {
        last_index_of(s.drop_last(), b)
    }
}

/// The extension of a file name: what follows its last `.`, provided that dot
/// is not the first byte and the name is not `..`.
pub open spec fn name_extension(n: Seq<u8>) -> Option<Seq<u8>> {
    let i = last_index_of(n, 46u8);
    if n == seq![46u8, 46u8] || i <= 0 {
        None
    } else {
        Some(n.subrange(i + 1, n.len() as int))
    }
}

/// The extension of a path's file name, if it has one.
pub open spec fn extension_spec(p: Seq<ComponentView>) -> Option<Seq<u8>> {
    match file_name_spec(p) {
        Some(n) => name_extension(n),
        None => None,
    }
}

/// `.` and the root appear, if at all, only as the first component.
pub open spec fn well_formed_spec(p: Seq<ComponentView>) -> bool {
    forall|i: int|
        0 < i < p.len() ==> #[trigger] p[i] != ComponentView::Root && p[i]
            != ComponentView::Current
}

/// What the host's path parser makes of a text.
pub uninterp spec fn parsed_components(s: Seq<char>) -> Seq<ComponentView>;

/// Relies on `std::path::Path::components`: splits a path text into its
/// components, each name kept as its bytes.
#[verifier::external_body]
fn parse_components(s: &str) -> (r: Vec<PathComponent>)
    ensures
        components_view(r@) == parsed_components(s@),
{
    let mut out = Vec::new();
    for c in std::path::Path::new(s).components() {
        out.push(match c {
            std::path::Component::Prefix(p) => {
                PathComponent::Normal(p.as_os_str().as_encoded_bytes().to_vec())
            },
            std::path::Component::RootDir => PathComponent::RootDir,
            std::path::Component::CurDir => PathComponent::CurDir,
            std::path::Component::ParentDir => PathComponent::ParentDir,
            std::path::Component::Normal(n) => PathComponent::Normal(n.as_encoded_bytes().to_vec()),
        });
    }
    out
}

/// Error returned when a path does not begin with the prefix to strip.
#[derive(Debug, Clone, Copy, PartialEq, Eq, Structural)]
pub struct StripPrefixError;

/// Copy of a byte string.
pub fn copy_bytes(b: &Vec<u8>) -> (r: Vec<u8>)
    ensures
        r@ == b@,
{
    let mut r: Vec<u8> = Vec::new();
    let mut i: usize = 0;
    while i < b.len()
        invariant
            i <= b.len(),
            r@ == b@.subrange(0, i as int),
        decreases b.len() - i,
    {
        r.push(b[i]);
        i = i + 1;
    }
    assert(r@ =~= b@);
    r
}

/// Byte strings compared by content.
pub fn bytes_equal(a: &Vec<u8>, b: &Vec<u8>) -> (r: bool)
    ensures
        r == (a@ == b@),
{
    if a.len() != b.len() {
        return false;
    }
    let mut i: usize = 0;
    while i < a.len()
        invariant
            a.len() == b.len(),
            i <= a.len(),
            a@.subrange(0, i as int) == b@.subrange(0, i as int),
        decreases a.len() - i,
    {
        if a[i] != b[i] {
            assert(a@[i as int] != b@[i as int]);
            return false;
        }
        assert(a@.subrange(0, i + 1) =~= a@.subrange(0, i as int).push(a@[i as int]));
        assert(b@.subrange(0, i + 1) =~= b@.subrange(0, i as int).push(b@[i as int]));
        i = i + 1;
    }
    assert(a@ =~= a@.subrange(0, a.len() as int));
    assert(b@ =~= b@.subrange(0, b.len() as int));
    true
}

impl PathComponent {
    /// Copy of this component.
    pub fn duplicate(&self) -> (r: PathComponent)
        ensures
            r@ == self@,
    {
        match self {
            PathComponent::RootDir => PathComponent::RootDir,
            PathComponent::CurDir => PathComponent::CurDir,
            PathComponent::ParentDir => PathComponent::ParentDir,
            PathComponent::Normal(n) => PathComponent::Normal(copy_bytes(n)),
        }
    }

    /// Components compared by content.
    pub fn same_as(&self, other: &PathComponent) -> (r: bool)
        ensures
            r == (self@ == other@),
    {
        match (self, other) {
            (PathComponent::RootDir, PathComponent::RootDir) => true,
            (PathComponent::CurDir, PathComponent::CurDir) => true,
            (PathComponent::ParentDir, PathComponent::ParentDir) => true,
            (PathComponent::Normal(a), PathComponent::Normal(b)) => bytes_equal(a, b),
            _ => false,
        }
    }

    /// Whether this component reads exactly `name`.
    pub fn reads(&self, name: &Vec<u8>) -> (r: bool)
        ensures
            r == (component_text(self@) == name@),
    {
        match self {
            PathComponent::RootDir => {
                let r = name.len() == 1 && name[0] == 47u8;
                assert(r ==> name@ =~= seq![47u8]);
                r
            },
            PathComponent::CurDir => {
                let r = name.len() == 1 && name[0] == 46u8;
                assert(r ==> name@ =~= seq![46u8]);
                r
            },
            PathComponent::ParentDir => {
                let r = name.len() == 2 && name[0] == 46u8 && name[1] == 46u8;
                assert(r ==> name@ =~= seq![46u8, 46u8]);
                r
            },
            PathComponent::Normal(n) => bytes_equal(n, name),
        }
    }
}


impl FsPath {
    /// The path that a text names, split into components by the host's rules.
    pub fn new(s: &str) -> (r: FsPath)
        ensures
            r@ == parsed_components(s@),
    {
        FsPath { components: parse_components(s) }
    }

    /// The path made of the given components.
    pub fn from_components(components: Vec<PathComponent>) -> (r: FsPath)
        ensures
            r.components@ == components@,
    {
        FsPath { components }
    }

    /// Copy of this path.
    pub fn duplicate(&self) -> (r: FsPath)
        ensures
            r@ == self@,
    {
        let mut out: Vec<PathComponent> = Vec::new();
        let mut i: usize = 0;
        while i < self.components.len()
            invariant
                i <= self.components.len(),
                components_view(out@) == self@.subrange(0, i as int),
            decreases self.components.len() - i,
        {
            let c = self.components[i].duplicate();
            proof {
                lemma_components_view_push(out@, c);
            }
            out.push(c);
            i = i + 1;
            assert(components_view(out@) =~= self@.subrange(0, i as int));
        }
        assert(self@ =~= self@.subrange(0, i as int));
        FsPath { components: out }
    }

    /// Whether some component of this path reads exactly `name`.
    pub fn has_component(&self, name: &Vec<u8>) -> (r: bool)
        ensures
            r == has_component_spec(self@, name@),
    {
        let mut i: usize = 0;
        while i < self.components.len()
            invariant
                i <= self.components.len(),
                forall|j: int| 0 <= j < i ==> component_text(#[trigger] self@[j]) != name@,
            decreases self.components.len() - i,
        {
            if self.components[i].reads(name) {
                assert(component_text(self@[i as int]) == name@);
                return true;
            }
            i = i + 1;
        }
        false
    }

    /// The rest of this path after `prefix`, compared component by component.
    pub fn strip_prefix(&self, prefix: &FsPath) -> (r: Result<FsPath, StripPrefixError>)
        ensures
            r is Ok <==> starts_with_spec(self@, prefix@),
            r is Ok ==> r->Ok_0@ == self@.skip(prefix@.len() as int),
    {
        let n = prefix.components.len();
        if n > self.components.len() {
            return Err(StripPrefixError);
        }
        let mut i: usize = 0;
        while i < n
            invariant
                n == prefix.components.len() <= self.components.len(),
                i <= n,
                self@.subrange(0, i as int) == prefix@.subrange(0, i as int),
            decreases n - i,
        {
            if !self.components[i].same_as(&prefix.components[i]) {
                assert(self@.subrange(0, n as int)[i as int] != prefix@[i as int]);
                return Err(StripPrefixError);
            }
            assert(self@.subrange(0, i + 1) =~= self@.subrange(0, i as int).push(self@[i as int]));
            assert(prefix@.subrange(0, i + 1) =~= prefix@.subrange(0, i as int).push(
                prefix@[i as int],
            ));
            i = i + 1;
        }
        assert(prefix@ =~= prefix@.subrange(0, n as int));
        let mut rest: Vec<PathComponent> = Vec::new();
        let mut j: usize = n;
        while j < self.components.len()
            invariant
                n <= j <= self.components.len(),
                components_view(rest@) == self@.subrange(n as int, j as int),
            decreases self.components.len() - j,
        {
            let c = self.components[j].duplicate();
            proof {
                lemma_components_view_push(rest@, c);
            }
            rest.push(c);
            j = j + 1;
            assert(components_view(rest@) =~= self@.subrange(n as int, j as int));
        }
        assert(self@.skip(n as int) =~= self@.subrange(n as int, j as int));
        Ok(FsPath { components: rest })
    }

    /// This path with `rest` appended, as the host joins paths.
    pub fn join(&self, rest: &FsPath) -> (r: FsPath)
        ensures
            r@ == join_spec(self@, rest@),
    {
        if rest.components.len() > 0 {
            match &rest.components[0] {
                PathComponent::RootDir => {
                    return rest.duplicate();
                },
                _ => {},
            }
        }
        let mut out = self.duplicate().components;
        let mut j: usize = 0;
        if self.components.len() > 0 && rest.components.len() > 0 {
            match &rest.components[0] {
                PathComponent::CurDir => {
                    j = 1;
                },
                _ => {},
            }
        }
        let start = j;
        assert(components_view(out@) == self@);
        while j < rest.components.len()
            invariant
                start <= j <= rest.components.len(),
                components_view(out@) == self@ + rest@.subrange(
                    start as int,
                    j as int,
                ),
            decreases rest.components.len() - j,
        {
            let c = rest.components[j].duplicate();
            proof {
                lemma_components_view_push(out@, c);
            }
            out.push(c);
            j = j + 1;
            assert(components_view(out@) =~= self@ + rest@.subrange(
                start as int,
                j as int,
            ));
        }
        let r = FsPath { components: out };
        assert(rest@.subrange(start as int, j as int) =~= rest@.skip(start as int));
        assert(rest@.skip(0) =~= rest@);
        r
    }

    /// The extension of this path's file name, if it has one.
    pub fn extension(&self) -> (r: Option<Vec<u8>>)
        ensures
            r matches Some(e) ==> extension_spec(self@) == Some(e@),
            r is None ==> extension_spec(self@) is None,
    {
        let len = self.components.len();
        if len == 0 {
            return None;
        }
        match &self.components[len - 1] {
            PathComponent::Normal(name) => {
                assert(file_name_spec(self@) == Some(name@));
                name_extension_of(name)
            },
            _ => None,
        }
    }
}

/// The extension of a file name, as [`name_extension`] states it.
pub fn name_extension_of(name: &Vec<u8>) -> (r: Option<Vec<u8>>)
    ensures
        r matches Some(e) ==> name_extension(name@) == Some(e@),
        r is None ==> name_extension(name@) is None,
{
    let n = name.len();
    if n == 2 && name[0] == 46u8 && name[1] == 46u8 {
        assert(name@ =~= seq![46u8, 46u8]);
        return None;
    }
    assert(name@ != seq![46u8, 46u8]);
    let mut k: usize = n;
    assert(name@.subrange(0, n as int) =~= name@);
    while k > 0 && name[k - 1] != 46u8
        invariant
            k <= n == name.len(),
            last_index_of(name@, 46u8) == last_index_of(name@.subrange(0, k as int), 46u8),
        decreases k,
    {
        assert(name@.subrange(0, k - 1) =~= name@.subrange(0, k as int).drop_last());
        k = k - 1;
    }
    if k > 0 {
        assert(name@.subrange(0, k as int).last() == 46u8);
    }
    assert(last_index_of(name@, 46u8) == k - 1);
    if k <= 1 {
        return None;
    }
    let mut e: Vec<u8> = Vec::new();
    let mut j: usize = k;
    while j < n
        invariant
            k <= j <= n == name.len(),
            e@ == name@.subrange(k as int, j as int),
        decreases n - j,
    {
        e.push(name[j]);
        j = j + 1;
        assert(e@ =~= name@.subrange(k as int, j as int));
    }
    Some(e)
}

} // verus!
