//! Names, spans and other small identifiers of the ditto AST.
use vstd::prelude::*;

verus! {

/// A source location, as a half-open range of byte offsets.
#[derive(Clone, Copy, Debug, PartialEq, Eq, Structural)]
pub struct Span {
    pub start_offset: usize,
    pub end_offset: usize,
}

/// Clones a `String`, keeping its contents.
pub fn copy_string(s: &String) -> (r: String)
    ensures
        r@ == s@,
{
    s.clone()
}

/// Compares two strings by their contents.
pub fn string_eq(a: &String, b: &String) -> (r: bool)
    ensures
        r == (a@ == b@),
{
    *a == *b
}

/// A (lower case) value name, such as `foo`.
#[derive(Debug)]
pub struct Name(pub String);

/// An unused name, such as `_foo`.
#[derive(Debug)]
pub struct UnusedName(pub String);

/// A proper (capitalised) name, such as `Foo`.
#[derive(Debug)]
pub struct ProperName(pub String);

impl View for Name {
    type V = Seq<char>;

    open spec fn view(&self) -> Seq<char> {
        self.0@
    }
}

impl View for UnusedName {
    type V = Seq<char>;

    open spec fn view(&self) -> Seq<char> {
        self.0@
    }
}

impl View for ProperName {
    type V = Seq<char>;

    open spec fn view(&self) -> Seq<char> {
        self.0@
    }
}

impl Name {
    pub fn copy(&self) -> (r: Name)
        ensures
            r@ == self@,
    {
        Name(copy_string(&self.0))
    }

    pub fn eq(&self, other: &Name) -> (r: bool)
        ensures
            r == (self@ == other@),
    {
        string_eq(&self.0, &other.0)
    }
}

impl UnusedName {
    pub fn copy(&self) -> (r: UnusedName)
        ensures
            r@ == self@,
    {
        UnusedName(copy_string(&self.0))
    }
}

impl ProperName {
    pub fn copy(&self) -> (r: ProperName)
        ensures
            r@ == self@,
    {
        ProperName(copy_string(&self.0))
    }

    pub fn eq(&self, other: &ProperName) -> (r: bool)
        ensures
            r == (self@ == other@),
    {
        string_eq(&self.0, &other.0)
    }
}

/// The name of a package, such as `test-stuff`.
#[derive(Debug, Hash)]
pub struct PackageName(pub String);

impl View for PackageName {
    type V = Seq<char>;

    open spec fn view(&self) -> Seq<char> {
        self.0@
    }
}

impl PackageName {
    pub fn copy(&self) -> (r: PackageName)
        ensures
            r@ == self@,
    {
        PackageName(copy_string(&self.0))
    }

    pub fn eq(&self, other: &PackageName) -> (r: bool)
        ensures
            r == (self@ == other@),
    {
        string_eq(&self.0, &other.0)
    }
}

/// Clones a vector of proper names.
pub fn copy_proper_names(v: &Vec<ProperName>) -> (r: Vec<ProperName>)
    ensures
        r@.len() == v@.len(),
        forall|i: int| 0 <= i < v@.len() ==> #[trigger] r@[i]@ == v@[i]@,
{
    let mut r: Vec<ProperName> = Vec::new();
    let mut i: usize = 0;
    while i < v.len()
        invariant
            i <= v@.len(),
            r@.len() == i,
            forall|j: int| 0 <= j < i ==> #[trigger] r@[j]@ == v@[j]@,
        decreases v@.len() - i,
    {
        r.push(v[i].copy());
        i = i + 1;
    }
    r
}

/// The view of a sequence of proper names: the sequence of their contents.
pub open spec fn proper_names_view(v: Seq<ProperName>) -> Seq<Seq<char>> {
    Seq::new(v.len(), |i: int| v[i]@)
}

/// A module name, such as `Data.Stuff`: one or more proper names.
#[derive(Debug)]
pub struct ModuleName(pub Vec<ProperName>);

impl View for ModuleName {
    type V = Seq<Seq<char>>;

    open spec fn view(&self) -> Seq<Seq<char>> {
        proper_names_view(self.0@)
    }
}

impl ModuleName {
    pub fn copy(&self) -> (r: ModuleName)
        ensures
            r@ == self@,
    {
        let v = copy_proper_names(&self.0);
        let r = ModuleName(v);
        assert(r@ =~= self@);
        r
    }

    pub fn eq(&self, other: &ModuleName) -> (r: bool)
        ensures
            r == (self@ == other@),
    {
        if self.0.len() != other.0.len() {
            proof {
                assert(self@.len() != other@.len());
            }
            return false;
        }
        let mut i: usize = 0;
        while i < self.0.len()
            invariant
                i <= self.0@.len(),
                self.0@.len() == other.0@.len(),
                forall|j: int| 0 <= j < i ==> self@[j] == other@[j],
            decreases self.0@.len() - i,
        {
            if !self.0[i].eq(&other.0[i]) {
                proof {
                    assert(self@[i as int] != other@[i as int]);
                }
                return false;
            }
            i = i + 1;
        }
        assert(self@ =~= other@);
        true
    }
}

/// A module name, qualified by the package that it comes from (if any).
#[derive(Debug)]
pub struct FullyQualifiedModuleName {
    pub package_name: Option<PackageName>,
    pub module_name: ModuleName,
}

/// The view of an optional package name.
pub open spec fn opt_package_view(p: Option<PackageName>) -> Option<Seq<char>> {
    match p {
        Some(p) => Some(p@),
        None => None,
    }
}

impl View for FullyQualifiedModuleName {
    type V = (Option<Seq<char>>, Seq<Seq<char>>);

    open spec fn view(&self) -> (Option<Seq<char>>, Seq<Seq<char>>) {
        (opt_package_view(self.package_name), self.module_name@)
    }
}

impl FullyQualifiedModuleName {
    pub fn copy(&self) -> (r: FullyQualifiedModuleName)
        ensures
            r@ == self@,
    {
        let package_name = match &self.package_name {
            Some(p) => Some(p.copy()),
            None => None,
        };
        FullyQualifiedModuleName { package_name, module_name: self.module_name.copy() }
    }

    pub fn eq(&self, other: &FullyQualifiedModuleName) -> (r: bool)
        ensures
            r == (self@ == other@),
    {
        let same_package = match (&self.package_name, &other.package_name) {
            (Some(a), Some(b)) => a.eq(b),
            (None, None) => true,
            _ => false,
        };
        same_package && self.module_name.eq(&other.module_name)
    }
}

/// A proper name qualified by the module it was defined in.
#[derive(Debug)]
pub struct FullyQualifiedProperName {
    pub module_name: FullyQualifiedModuleName,
    pub value: ProperName,
}

impl View for FullyQualifiedProperName {
    type V = ((Option<Seq<char>>, Seq<Seq<char>>), Seq<char>);

    open spec fn view(&self) -> ((Option<Seq<char>>, Seq<Seq<char>>), Seq<char>) {
        (self.module_name@, self.value@)
    }
}

impl FullyQualifiedProperName {
    pub fn copy(&self) -> (r: FullyQualifiedProperName)
        ensures
            r@ == self@,
    {
        FullyQualifiedProperName { module_name: self.module_name.copy(), value: self.value.copy() }
    }

    pub fn eq(&self, other: &FullyQualifiedProperName) -> (r: bool)
        ensures
            r == (self@ == other@),
    {
        self.module_name.eq(&other.module_name) && self.value.eq(&other.value)
    }
}

/// A value name qualified by the module it was defined in.
#[derive(Debug)]
pub struct FullyQualifiedName {
    pub module_name: FullyQualifiedModuleName,
    pub value: Name,
}

impl View for FullyQualifiedName {
    type V = ((Option<Seq<char>>, Seq<Seq<char>>), Seq<char>);

    open spec fn view(&self) -> ((Option<Seq<char>>, Seq<Seq<char>>), Seq<char>) {
        (self.module_name@, self.value@)
    }
}

impl FullyQualifiedName {
    pub fn copy(&self) -> (r: FullyQualifiedName)
        ensures
            r@ == self@,
    {
        FullyQualifiedName { module_name: self.module_name.copy(), value: self.value.copy() }
    }
}

/// The view of an optional proper name.
pub open spec fn opt_proper_view(p: Option<ProperName>) -> Option<Seq<char>> {
    match p {
        Some(p) => Some(p@),
        None => None,
    }
}

/// A proper name, optionally qualified by an import alias: `Maybe.Just`.
#[derive(Debug)]
pub struct QualifiedProperName {
    pub module_name: Option<ProperName>,
    pub value: ProperName,
}

impl View for QualifiedProperName {
    type V = (Option<Seq<char>>, Seq<char>);

    open spec fn view(&self) -> (Option<Seq<char>>, Seq<char>) {
        (opt_proper_view(self.module_name), self.value@)
    }
}

impl QualifiedProperName {
    pub fn copy(&self) -> (r: QualifiedProperName)
        ensures
            r@ == self@,
    {
        let module_name = match &self.module_name {
            Some(m) => Some(m.copy()),
            None => None,
        };
        QualifiedProperName { module_name, value: self.value.copy() }
    }

    pub fn eq(&self, other: &QualifiedProperName) -> (r: bool)
        ensures
            r == (self@ == other@),
    {
        let same_module = match (&self.module_name, &other.module_name) {
            (Some(a), Some(b)) => a.eq(b),
            (None, None) => true,
            _ => false,
        };
        same_module && self.value.eq(&other.value)
    }
}

/// A value name, optionally qualified by an import alias: `Maybe.map`.
#[derive(Debug)]
pub struct QualifiedName {
    pub module_name: Option<ProperName>,
    pub value: Name,
}

impl View for QualifiedName {
    type V = (Option<Seq<char>>, Seq<char>);

    open spec fn view(&self) -> (Option<Seq<char>>, Seq<char>) {
        (opt_proper_view(self.module_name), self.value@)
    }
}

impl QualifiedName {
    pub fn copy(&self) -> (r: QualifiedName)
        ensures
            r@ == self@,
    {
        let module_name = match &self.module_name {
            Some(m) => Some(m.copy()),
            None => None,
        };
        QualifiedName { module_name, value: self.value.copy() }
    }

    pub fn eq(&self, other: &QualifiedName) -> (r: bool)
        ensures
            r == (self@ == other@),
    {
        let same_module = match (&self.module_name, &other.module_name) {
            (Some(a), Some(b)) => a.eq(b),
            (None, None) => true,
            _ => false,
        };
        same_module && self.value.eq(&other.value)
    }
}

/// An unqualified name.
pub fn unqualified(name: Name) -> (r: QualifiedName)
    ensures
        r@ == (None::<Seq<char>>, name@),
{
    QualifiedName { module_name: None, value: name }
}

} // verus!
