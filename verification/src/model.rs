//! The dataset: railroad sections with the names of their line and operator
//! and their geometry, and the identity of a line.

use vstd::prelude::*;
use crate::text::{lemma_lex_irreflexive, lemma_lex_total, lemma_lex_transitive, lex_lt};

verus! {

/// A whole dataset, as it was loaded.
#[derive(Debug, Clone)]
pub struct Geo {
    pub kind: String,
    pub name: String,
    pub crs: Crs,
    pub features: Vec<Feature>,
}

/// The coordinate reference system that a dataset names.
#[derive(Debug, Clone)]
pub struct Crs {
    pub kind: String,
    pub properties: Property,
}

/// The name of a coordinate reference system.
#[derive(Debug, Clone)]
pub struct Property {
    pub name: String,
}

/// One railroad section.
#[derive(Debug, Clone)]
pub struct Feature {
    pub kind: String,
    pub properties: GeoProperty,
    pub geometry: Geometry,
}

/// The attributes of a section. `N02_003` is the name of the line and
/// `N02_004` the name of its operator; the other two are carried along
/// unread.
#[allow(non_snake_case)]
#[derive(Debug, Clone)]
pub struct GeoProperty {
    pub N02_001: String,
    pub N02_002: String,
    pub N02_003: String,
    pub N02_004: String,
}

/// The geometry of a section: chains of coordinate pairs. Each component of
/// a pair is kept as the decimal numeral that stands for it in a document.
#[derive(Debug, Clone)]
pub struct Geometry {
    pub kind: String,
    pub coordinates: Vec<Vec<Vec<String>>>,
}

/// The identity of a line: the name of its operator and its own name.
/// Lines are ordered by operator first, then by name, each as text.
#[derive(Hash, Eq, PartialEq, Ord, PartialOrd, Debug, Clone)]
pub struct TrainLine<'a> {
    pub company_name: &'a str,
    pub line_name: &'a str,
}

/// The identity of a line as a value: the texts of its two names.
pub struct LineIdentity {
    pub company: Seq<char>,
    pub line: Seq<char>,
}

/// What the library reads of a section: whose it is, and its chains of
/// coordinate pairs, each pair a sequence of numerals.
pub struct Record {
    pub identity: LineIdentity,
    pub chains: Seq<Seq<Seq<Seq<char>>>>,
}

impl<'a> View for TrainLine<'a> {
    type V = LineIdentity;

    open spec fn view(&self) -> LineIdentity {
        LineIdentity { company: self.company_name@, line: self.line_name@ }
    }
}

impl View for Feature {
    type V = Record;

    open spec fn view(&self) -> Record {
        Record {
            identity: LineIdentity {
                company: self.properties.N02_004@,
                line: self.properties.N02_003@,
            },
            chains: self.geometry.coordinates.deep_view(),
        }
    }
}

impl View for Geo {
    type V = Seq<Record>;

    open spec fn view(&self) -> Seq<Record> {
        self.features@.map_values(|f: Feature| f@)
    }
}

/// `x` comes strictly before `y`: by operator, and among the lines of one
/// operator by name.
pub open spec fn identity_lt(x: LineIdentity, y: LineIdentity) -> bool {
    lex_lt(x.company, y.company) || (x.company == y.company && lex_lt(x.line, y.line))
}

/// No identity comes before itself.
pub proof fn lemma_identity_irreflexive(x: LineIdentity)
    ensures
        !identity_lt(x, x),
{
    lemma_lex_irreflexive(x.company);
    lemma_lex_irreflexive(x.line);
}

/// The order of identities is transitive.
pub proof fn lemma_identity_transitive(x: LineIdentity, y: LineIdentity, z: LineIdentity)
    requires
        identity_lt(x, y),
        identity_lt(y, z),
    ensures
        identity_lt(x, z),
{
    if lex_lt(x.company, y.company) && lex_lt(y.company, z.company) {
        lemma_lex_transitive(x.company, y.company, z.company);
    } else if x.company == y.company && y.company == z.company {
        lemma_lex_transitive(x.line, y.line, z.line);
    }
}

/// Two different identities are ordered one way or the other.
pub proof fn lemma_identity_total(x: LineIdentity, y: LineIdentity)
    ensures
        x == y || identity_lt(x, y) || identity_lt(y, x),
{
    lemma_lex_total(x.company, y.company);
    lemma_lex_total(x.line, y.line);
}

/// `s` is in strictly ascending order, so that nothing occurs twice in it.
pub open spec fn strictly_ascending(s: Seq<LineIdentity>) -> bool {
    forall|i: int, j: int| 0 <= i < j < s.len() ==> identity_lt(#[trigger] s[i], #[trigger] s[j])
}

/// Every coordinate pair of `chains` has exactly two components.
pub open spec fn chains_ok(chains: Seq<Seq<Seq<Seq<char>>>>) -> bool {
    forall|c: int, p: int|
        0 <= c < chains.len() && 0 <= p < chains[c].len() ==> (#[trigger] chains[c][p]).len() == 2
}

/// Every coordinate pair of the dataset has exactly two components. This
/// is what a dataset is expected to be; one that is not is corrupt.
pub open spec fn geometry_ok(records: Seq<Record>) -> bool {
    forall|i: int| 0 <= i < records.len() ==> chains_ok((#[trigger] records[i]).chains)
}

/// Whether every coordinate pair of `chains` has exactly two components.
pub(crate) fn chains_are_valid(chains: &Vec<Vec<Vec<String>>>) -> (ok: bool)
    ensures
        ok == chains_ok(chains.deep_view()),
{
    let mut c: usize = 0;
    while c < chains.len()
        invariant
            c <= chains.len(),
            chains_ok(chains.deep_view().take(c as int)),
        decreases chains.len() - c,
    {
        let chain = &chains[c];
        let mut p: usize = 0;
        while p < chain.len()
            invariant
                c < chains.len(),
                chain == &chains[c as int],
                p <= chain.len(),
                forall|q: int| 0 <= q < p ==> (#[trigger] chains.deep_view()[c as int][q]).len() == 2,
            decreases chain.len() - p,
        {
            if chain[p].len() != 2 {
                assert(chains.deep_view()[c as int][p as int].len() != 2);
                return false;
            }
            p += 1;
        }
        c += 1;
    }
    assert(chains.deep_view().take(c as int) =~= chains.deep_view());
    true
}

impl Geo {
    /// Whether every coordinate pair of the dataset has exactly two
    /// components.
    pub fn has_valid_coordinates(&self) -> (ok: bool)
        ensures
            ok == geometry_ok(self@),
    {
        let mut i: usize = 0;
        while i < self.features.len()
            invariant
                i <= self.features.len(),
                forall|j: int| 0 <= j < i ==> chains_ok((#[trigger] self@[j]).chains),
            decreases self.features.len() - i,
        {
            assert(self@[i as int] == self.features[i as int]@);
            if !chains_are_valid(&self.features[i].geometry.coordinates) {
                return false;
            }
            i += 1;
        }
        true
    }
}

} // verus!
