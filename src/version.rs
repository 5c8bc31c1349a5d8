use vstd::prelude::*;

use crate::text::{decimal_text, push_char, push_decimal, push_text};

verus! {

/// One dot-separated part of a prerelease or build qualifier, such as
/// `beta` or `9` in `beta.9`.
#[derive(Debug, Clone)]
pub enum Identifier {
    Number(u64),
    /// Only ASCII symbols.
    String(String),
}

/// The mathematical value of an [`Identifier`].
pub enum IdentifierView {
    Number(u64),
    Text(Seq<char>),
}

impl View for Identifier {
    type V = IdentifierView;

    open spec fn view(&self) -> IdentifierView {
        match self {
            Identifier::Number(n) => IdentifierView::Number(*n),
            Identifier::String(s) => IdentifierView::Text(s@),
        }
    }
}

/// A single semver compliant version.
#[derive(Debug, Clone)]
pub struct Version {
    /// The major version.
    pub major: u64,
    /// The minor version.
    pub minor: u64,
    /// The patch version.
    pub patch: u64,
    /// The prerelease version.
    pub prerelease: Vec<Identifier>,
    /// The build version.
    pub build: Vec<Identifier>,
}

/// The mathematical value of a [`Version`].
pub struct VersionView {
    pub major: u64,
    pub minor: u64,
    pub patch: u64,
    pub prerelease: Seq<IdentifierView>,
    pub build: Seq<IdentifierView>,
}

/// The values of a sequence of identifiers.
pub open spec fn ids_view(ids: Seq<Identifier>) -> Seq<IdentifierView> {
    ids.map_values(|id: Identifier| id@)
}

impl View for Version {
    type V = VersionView;

    open spec fn view(&self) -> VersionView {
        VersionView {
            major: self.major,
            minor: self.minor,
            patch: self.patch,
            prerelease: ids_view(self.prerelease@),
            build: ids_view(self.build@),
        }
    }
}

/// The text of an identifier.
pub open spec fn identifier_text(id: IdentifierView) -> Seq<char> {
    match id {
        IdentifierView::Number(n) => decimal_text(n as nat),
        IdentifierView::Text(t) => t,
    }
}

/// The texts of `ids` joined by dots.
pub open spec fn dotted_text(ids: Seq<IdentifierView>) -> Seq<char>
    decreases ids.len(),
{
    if ids.len() == 0 {
        seq![]
    } else if ids.len() == 1 {
        identifier_text(ids[0])
    } else {
        dotted_text(ids.drop_last()) + seq!['.'] + identifier_text(ids.last())
    }
}

/// `MAJOR.MINOR.PATCH`, then `-` and the prerelease identifiers if there are
/// any, then `+` and the build identifiers if there are any.
pub open spec fn version_text(v: VersionView) -> Seq<char> {
    decimal_text(v.major as nat) + seq!['.'] + decimal_text(v.minor as nat) + seq!['.']
        + decimal_text(v.patch as nat)
        + (if v.prerelease.len() > 0 { seq!['-'] + dotted_text(v.prerelease) } else { seq![] })
        + (if v.build.len() > 0 { seq!['+'] + dotted_text(v.build) } else { seq![] })
}

impl Identifier {
    /// The text of the identifier: the decimal notation of a number, or the
    /// string itself.
    pub fn to_string(&self) -> (r: String)
        ensures
            r@ == identifier_text(self@),
    {
        let mut out = String::new();
        push_identifier(&mut out, self);
        out
    }
}

fn push_identifier(out: &mut String, id: &Identifier)
    ensures
        final(out)@ == old(out)@ + identifier_text(id@),
{
    match id {
        Identifier::Number(n) => push_decimal(out, *n),
        Identifier::String(s) => push_text(out, s),
    }
}

fn push_dotted(out: &mut String, ids: &Vec<Identifier>)
    ensures
        final(out)@ == old(out)@ + dotted_text(ids_view(ids@)),
{
    let ghost start = out@;
    let mut i: usize = 0;
    while i < ids.len()
        invariant
            i <= ids@.len(),
            out@ == start + dotted_text(ids_view(ids@.take(i as int))),
        decreases ids@.len() - i,
    {
        let ghost before = out@;
        if i > 0 {
            push_char(out, '.');
        }
        push_identifier(out, &ids[i]);
        i = i + 1;
        proof {
            let taken = ids_view(ids@.take(i as int));
            assert(taken.drop_last() =~= ids_view(ids@.take(i - 1)));
            assert(taken.last() == ids@[i - 1]@);
            if i == 1 {
                assert(dotted_text(ids_view(ids@.take(0))) =~= seq![]);
            }
            assert(out@ =~= start + dotted_text(taken));
        }
    }
    assert(ids@.take(ids@.len() as int) =~= ids@);
}

impl Version {
    /// A version with no prerelease and no build identifiers.
    pub fn new(major: u64, minor: u64, patch: u64) -> (r: Version)
        ensures
            r@ == (VersionView { major, minor, patch, prerelease: seq![], build: seq![] }),
    {
        let r = Version { major, minor, patch, prerelease: Vec::new(), build: Vec::new() };
        assert(r@.prerelease =~= seq![]);
        assert(r@.build =~= seq![]);
        r
    }

    /// A version with prerelease identifiers and no build identifiers.
    pub fn new_prerelease(major: u64, minor: u64, patch: u64, prerelease: Vec<Identifier>) -> (r:
        Version)
        ensures
            r@ == (VersionView {
                major,
                minor,
                patch,
                prerelease: ids_view(prerelease@),
                build: seq![],
            }),
    {
        let r = Version { major, minor, patch, prerelease, build: Vec::new() };
        assert(r@.build =~= seq![]);
        r
    }

    /// A version with build identifiers and no prerelease identifiers.
    pub fn new_build(major: u64, minor: u64, patch: u64, build: Vec<Identifier>) -> (r: Version)
        ensures
            r@ == (VersionView {
                major,
                minor,
                patch,
                prerelease: seq![],
                build: ids_view(build@),
            }),
    {
        let r = Version { major, minor, patch, prerelease: Vec::new(), build };
        assert(r@.prerelease =~= seq![]);
        r
    }

    /// The canonical text of the version.
    pub fn to_string(&self) -> (r: String)
        ensures
            r@ == version_text(self@),
    {
        let mut out = String::new();
        push_decimal(&mut out, self.major);
        push_char(&mut out, '.');
        push_decimal(&mut out, self.minor);
        push_char(&mut out, '.');
        push_decimal(&mut out, self.patch);
        if self.prerelease.len() > 0 {
            push_char(&mut out, '-');
            push_dotted(&mut out, &self.prerelease);
        }
        if self.build.len() > 0 {
            push_char(&mut out, '+');
            push_dotted(&mut out, &self.build);
        }
        assert(out@ =~= version_text(self@));
        out
    }
}

impl PartialEq for Identifier {
    fn eq(&self, other: &Identifier) -> (r: bool) {
        match (self, other) {
            (Identifier::Number(a), Identifier::Number(b)) => *a == *b,
            (Identifier::String(a), Identifier::String(b)) => *a == *b,
            _ => false,
        }
    }
}

impl vstd::std_specs::cmp::PartialEqSpecImpl for Identifier {
    open spec fn obeys_eq_spec() -> bool {
        true
    }

    open spec fn eq_spec(&self, other: &Identifier) -> bool {
        self@ == other@
    }
}

impl Eq for Identifier {

}

fn identifiers_eq(a: &Vec<Identifier>, b: &Vec<Identifier>) -> (r: bool)
    ensures
        r == (ids_view(a@) == ids_view(b@)),
{
    if a.len() != b.len() {
        assert(ids_view(a@).len() != ids_view(b@).len());
        return false;
    }
    let mut i: usize = 0;
    while i < a.len()
        invariant
            i <= a@.len(),
            a@.len() == b@.len(),
            forall|j: int| 0 <= j < i ==> (#[trigger] a@[j])@ == b@[j]@,
        decreases a@.len() - i,
    {
        if !(a[i] == b[i]) {
            assert(ids_view(a@)[i as int] != ids_view(b@)[i as int]);
            return false;
        }
        i = i + 1;
    }
    assert(ids_view(a@) =~= ids_view(b@));
    true
}

impl PartialEq for Version {
    fn eq(&self, other: &Version) -> (r: bool) {
        self.major == other.major && self.minor == other.minor && self.patch == other.patch
            && identifiers_eq(&self.prerelease, &other.prerelease) && identifiers_eq(
            &self.build,
            &other.build,
        )
    }
}

impl vstd::std_specs::cmp::PartialEqSpecImpl for Version {
    open spec fn obeys_eq_spec() -> bool {
        true
    }

    open spec fn eq_spec(&self, other: &Version) -> bool {
        self@ == other@
    }
}

impl Eq for Version {

}

impl Default for Version {
    /// The version `0.0.0`.
    fn default() -> (r: Version)
        ensures
            r@ == (VersionView { major: 0, minor: 0, patch: 0, prerelease: seq![], build: seq![] }),
    {
        Version::new(0, 0, 0)
    }
}

impl From<u8> for Identifier {
    fn from(n: u8) -> Identifier {
        Identifier::Number(n as u64)
    }
}

impl vstd::std_specs::convert::FromSpecImpl<u8> for Identifier {
    open spec fn obeys_from_spec() -> bool {
        true
    }

    open spec fn from_spec(n: u8) -> Identifier {
        Identifier::Number(n as u64)
    }
}

impl From<i8> for Identifier {
    fn from(n: i8) -> Identifier {
        Identifier::Number(n as u64)
    }
}

impl vstd::std_specs::convert::FromSpecImpl<i8> for Identifier {
    open spec fn obeys_from_spec() -> bool {
        true
    }

    open spec fn from_spec(n: i8) -> Identifier {
        Identifier::Number(n as u64)
    }
}

impl From<u16> for Identifier {
    fn from(n: u16) -> Identifier {
        Identifier::Number(n as u64)
    }
}

impl vstd::std_specs::convert::FromSpecImpl<u16> for Identifier {
    open spec fn obeys_from_spec() -> bool {
        true
    }

    open spec fn from_spec(n: u16) -> Identifier {
        Identifier::Number(n as u64)
    }
}

impl From<i16> for Identifier {
    fn from(n: i16) -> Identifier {
        Identifier::Number(n as u64)
    }
}

impl vstd::std_specs::convert::FromSpecImpl<i16> for Identifier {
    open spec fn obeys_from_spec() -> bool {
        true
    }

    open spec fn from_spec(n: i16) -> Identifier {
        Identifier::Number(n as u64)
    }
}

impl From<u32> for Identifier {
    fn from(n: u32) -> Identifier {
        Identifier::Number(n as u64)
    }
}

impl vstd::std_specs::convert::FromSpecImpl<u32> for Identifier {
    open spec fn obeys_from_spec() -> bool {
        true
    }

    open spec fn from_spec(n: u32) -> Identifier {
        Identifier::Number(n as u64)
    }
}

impl From<i32> for Identifier {
    fn from(n: i32) -> Identifier {
        Identifier::Number(n as u64)
    }
}

impl vstd::std_specs::convert::FromSpecImpl<i32> for Identifier {
    open spec fn obeys_from_spec() -> bool {
        true
    }

    open spec fn from_spec(n: i32) -> Identifier {
        Identifier::Number(n as u64)
    }
}

impl From<u64> for Identifier {
    fn from(n: u64) -> Identifier {
        Identifier::Number(n as u64)
    }
}

impl vstd::std_specs::convert::FromSpecImpl<u64> for Identifier {
    open spec fn obeys_from_spec() -> bool {
        true
    }

    open spec fn from_spec(n: u64) -> Identifier {
        Identifier::Number(n as u64)
    }
}

impl From<i64> for Identifier {
    fn from(n: i64) -> Identifier {
        Identifier::Number(n as u64)
    }
}

impl vstd::std_specs::convert::FromSpecImpl<i64> for Identifier {
    open spec fn obeys_from_spec() -> bool {
        true
    }

    open spec fn from_spec(n: i64) -> Identifier {
        Identifier::Number(n as u64)
    }
}

} // verus!
