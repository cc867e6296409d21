//! KML from a dataset: the placemarks of a line, the name of a file, and the
//! document that holds both.

use vstd::prelude::*;
use quick_xml::Writer;
use std::io::Cursor;
use crate::error::GeojsonError;
use crate::model::{
    chains_are_valid, chains_ok, geometry_ok, Feature, Geo, LineIdentity, Record, TrainLine,
};
use crate::text::{chars_eq, decimal, decimal_string, joined, lemma_joined_concat, to_chars};
use crate::xml::{
    emitted, end_tag, escaped, into_text, is_plain, lemma_escaped_literal, new_writer, start_tag,
    write_end, write_start, write_text,
};

verus! {

/// One placemark of a line: the number of the section that it belongs to,
/// counted from 0 over the sections of the line, and one chain of that
/// section.
pub struct Placemark {
    pub number: nat,
    pub chain: Seq<Seq<Seq<char>>>,
}

/// Every coordinate pair in the sections of the line `id` has exactly two
/// components.
pub open spec fn coordinates_ok(records: Seq<Record>, id: LineIdentity) -> bool {
    forall|i: int|
        0 <= i < records.len() && (#[trigger] records[i]).identity == id ==> chains_ok(
            records[i].chains,
        )
}

/// How many sections of `records` belong to the line `id`.
pub open spec fn matching_count(records: Seq<Record>, id: LineIdentity) -> nat
    decreases records.len(),
{
    if records.len() == 0 {
        0
    } else if records.last().identity == id {
        matching_count(records.drop_last(), id) + 1
    } else {
        matching_count(records.drop_last(), id)
    }
}

/// The placemarks of one section: one for each of its chains, in order, all
/// with the section's number.
pub open spec fn section_placemarks(number: nat, chains: Seq<Seq<Seq<Seq<char>>>>) -> Seq<
    Placemark,
> {
    Seq::new(chains.len(), |k: int| Placemark { number, chain: chains[k] })
}

/// The placemarks of the line `id`: those of each of its sections, in the
/// order of the dataset. A section is numbered by how many sections of the
/// line stand before it, whatever the number of its chains.
pub open spec fn placemarks(records: Seq<Record>, id: LineIdentity) -> Seq<Placemark>
    decreases records.len(),
{
    if records.len() == 0 {
        Seq::empty()
    } else if records.last().identity == id {
        placemarks(records.drop_last(), id) + section_placemarks(
            matching_count(records.drop_last(), id),
            records.last().chains,
        )
    } else {
        placemarks(records.drop_last(), id)
    }
}

/// A coordinate pair as it stands in a document: its two components and a
/// height of 0.
pub open spec fn pair_text(pair: Seq<Seq<char>>) -> Seq<char> {
    pair[0] + ","@ + pair[1] + ",0"@
}

/// The coordinates of a chain as they stand in a document: each pair on a
/// line of its own.
pub open spec fn chain_text(chain: Seq<Seq<Seq<char>>>) -> Seq<char> {
    "\n      "@ + joined(chain.map_values(|pair: Seq<Seq<char>>| pair_text(pair)), "\n      "@)
        + "\n    "@
}

/// The name of a placemark: operator, line and number.
pub open spec fn placemark_name(id: LineIdentity, number: nat) -> Seq<char> {
    id.company + " "@ + id.line + " "@ + decimal(number)
}

/// A placemark element with the given name and coordinates.
pub open spec fn placemark_element(name: Seq<char>, coordinates: Seq<char>) -> Seq<char> {
    start_tag("Placemark"@) + "\n  "@ + start_tag("name"@) + escaped(name) + end_tag("name"@)
        + "\n  "@ + start_tag("LineString"@) + "\n    "@ + start_tag("coordinates"@) + escaped(
        coordinates,
    ) + end_tag("coordinates"@) + "\n  "@ + end_tag("LineString"@) + "\n"@ + end_tag(
        "Placemark"@,
    )
}

/// The elements of the placemarks `marks` of the line `id`, one after the
/// other.
pub open spec fn rendered(id: LineIdentity, marks: Seq<Placemark>) -> Seq<char>
    decreases marks.len(),
{
    if marks.len() == 0 {
        Seq::empty()
    } else {
        rendered(id, marks.drop_last()) + placemark_element(
            placemark_name(id, marks.last().number),
            chain_text(marks.last().chain),
        )
    }
}

/// The body of the line `id` in a document: the elements of its placemarks.
pub open spec fn kml_body(records: Seq<Record>, id: LineIdentity) -> Seq<char> {
    rendered(id, placemarks(records, id))
}

/// The white space between the elements of a placemark is written as it is.
proof fn lemma_layout_is_plain()
    ensures
        escaped("\n  "@) == "\n  "@,
        escaped("\n    "@) == "\n    "@,
        escaped("\n"@) == "\n"@,
{
    reveal_strlit("\n  ");
    reveal_strlit("\n    ");
    reveal_strlit("\n");
    lemma_escaped_literal("\n  "@);
    lemma_escaped_literal("\n    "@);
    lemma_escaped_literal("\n"@);
}

/// Writes one placemark element.
fn write_placemark(w: &mut Writer<Cursor<Vec<u8>>>, name: &str, coordinates: &str) -> (r: Result<
    (),
    std::io::Error,
>)
    requires
        is_plain(*old(w)),
    ensures
        r is Ok,
        is_plain(*final(w)),
        emitted(*final(w)) == emitted(*old(w)) + placemark_element(name@, coordinates@),
{
    proof {
        lemma_layout_is_plain();
    }
    write_start(w, "Placemark")?;
    write_text(w, "\n  ")?;
    write_start(w, "name")?;
    write_text(w, name)?;
    write_end(w, "name")?;
    write_text(w, "\n  ")?;
    write_start(w, "LineString")?;
    write_text(w, "\n    ")?;
    write_start(w, "coordinates")?;
    write_text(w, coordinates)?;
    write_end(w, "coordinates")?;
    write_text(w, "\n  ")?;
    write_end(w, "LineString")?;
    write_text(w, "\n")?;
    write_end(w, "Placemark")?;
    Ok(())
}

/// The coordinates of a chain as they stand in a document.
fn chain_text_of(chain: &Vec<Vec<String>>) -> (text: String)
    requires
        forall|p: int| 0 <= p < chain.len() ==> (#[trigger] chain.deep_view()[p]).len() == 2,
    ensures
        text@ == chain_text(chain.deep_view()),
{
    let ghost pairs = chain.deep_view().map_values(|pair: Seq<Seq<char>>| pair_text(pair));
    let mut text = String::new();
    let mut p: usize = 0;
    while p < chain.len()
        invariant
            p <= chain.len(),
            pairs == chain.deep_view().map_values(|pair: Seq<Seq<char>>| pair_text(pair)),
            forall|q: int| 0 <= q < chain.len() ==> (#[trigger] chain.deep_view()[q]).len() == 2,
            text@ == joined(pairs.take(p as int), "\n      "@),
        decreases chain.len() - p,
    {
        let pair = &chain[p];
        assert(chain.deep_view()[p as int].len() == 2);
        if p > 0 {
            text.append("\n      ");
        }
        text.append(pair[0].as_str());
        text.append(",");
        text.append(pair[1].as_str());
        text.append(",0");
        proof {
            let now = pairs.take(p + 1);
            assert(now.drop_last() =~= pairs.take(p as int));
        }
        p += 1;
    }
    assert(pairs.take(p as int) =~= pairs);
    let mut whole = String::new();
    whole.append("\n      ");
    whole.append(text.as_str());
    whole.append("\n    ");
    whole
}

/// The name of the placemarks of the section with the given number.
fn placemark_name_of(train_line: &TrainLine, number: usize) -> (name: String)
    ensures
        name@ == placemark_name(train_line@, number as nat),
{
    let mut name = String::new();
    name.append(train_line.company_name);
    name.append(" ");
    name.append(train_line.line_name);
    name.append(" ");
    let digits = decimal_string(number);
    name.append(digits.as_str());
    name
}

/// Whether `feature` is a section of the line with the given names.
fn belongs_to(feature: &Feature, company: &Vec<char>, line: &Vec<char>) -> (yes: bool)
    ensures
        yes == (feature@.identity == LineIdentity { company: company@, line: line@ }),
{
    let c = to_chars(feature.properties.N02_004.as_str());
    let l = to_chars(feature.properties.N02_003.as_str());
    chars_eq(&l, line) && chars_eq(&c, company)
}

/// Whether every coordinate pair in the sections of `train_line` has exactly
/// two components.
fn line_is_well_formed(train_line: &TrainLine, geo: &Geo) -> (ok: bool)
    ensures
        ok == coordinates_ok(geo@, train_line@),
{
    let company = to_chars(train_line.company_name);
    let line = to_chars(train_line.line_name);
    let ghost id = train_line@;
    let ghost records = geo@;
    let mut i: usize = 0;
    while i < geo.features.len()
        invariant
            i <= geo.features.len(),
            records == geo@,
            id == train_line@,
            id == (LineIdentity { company: company@, line: line@ }),
            coordinates_ok(records.take(i as int), id),
        decreases geo.features.len() - i,
    {
        let feature = &geo.features[i];
        assert(records[i as int] == feature@);
        if belongs_to(feature, &company, &line) && !chains_are_valid(&feature.geometry.coordinates) {
            return false;
        }
        i += 1;
    }
    assert(records.take(i as int) =~= records);
    true
}

/// The body of a line whose coordinates are well formed, written with a
/// writer of its own.
fn write_body(train_line: &TrainLine, geo: &Geo) -> (body: Result<String, std::io::Error>)
    requires
        coordinates_ok(geo@, train_line@),
    ensures
        body matches Ok(text) && text@ == kml_body(geo@, train_line@),
{
    let company = to_chars(train_line.company_name);
    let line = to_chars(train_line.line_name);
    let ghost id = train_line@;
    let ghost records = geo@;
    let mut w = new_writer();
    let mut number: usize = 0;
    let mut i: usize = 0;
    while i < geo.features.len()
        invariant
            i <= geo.features.len(),
            records == geo@,
            id == train_line@,
            id == (LineIdentity { company: company@, line: line@ }),
            coordinates_ok(records, id),
            is_plain(w),
            number == matching_count(records.take(i as int), id),
            number <= i,
            emitted(w) == rendered(id, placemarks(records.take(i as int), id)),
        decreases geo.features.len() - i,
    {
        let feature = &geo.features[i];
        assert(records[i as int] == feature@);
        assert(records.take(i + 1).drop_last() =~= records.take(i as int));
        if belongs_to(feature, &company, &line) {
            let chains = &feature.geometry.coordinates;
            let name = placemark_name_of(train_line, number);
            let ghost before = placemarks(records.take(i as int), id);
            let ghost all = chains.deep_view();
            let mut k: usize = 0;
            while k < chains.len()
                invariant
                    k <= chains.len(),
                    all == chains.deep_view(),
                    chains_ok(all),
                    is_plain(w),
                    name@ == placemark_name(id, number as nat),
                    emitted(w) == rendered(
                        id,
                        before + section_placemarks(number as nat, all.take(k as int)),
                    ),
                decreases chains.len() - k,
            {
                let chain = &chains[k];
                assert(chain.deep_view() == all[k as int]);
                let coordinates = chain_text_of(chain);
                write_placemark(&mut w, name.as_str(), coordinates.as_str())?;
                proof {
                    let done = before + section_placemarks(number as nat, all.take(k as int));
                    let now = before + section_placemarks(number as nat, all.take(k + 1));
                    assert(now.drop_last() =~= done);
                }
                k += 1;
            }
            assert(all.take(k as int) =~= all);
            number += 1;
        }
        i += 1;
    }
    assert(records.take(i as int) =~= records);
    Ok(into_text(w))
}

/// The placemarks of one line, as they stand in a document.
///
/// The sections of the dataset are read in order. Each section whose
/// operator and line are exactly those of `train_line` gives one placemark
/// for each of its chains; all placemarks of a section share its number.
/// A line without sections has the empty body.
///
/// A coordinate pair without exactly two components, in a section of the
/// line, is an error of the dataset, and nothing is produced. On every
/// other dataset the body is returned.
pub fn generate_kml_body(train_line: &TrainLine, geo: &Geo) -> (body: Result<String, GeojsonError>)
    ensures
        match body {
            Ok(text) => coordinates_ok(geo@, train_line@) && text@ == kml_body(
                geo@,
                train_line@,
            ),
            Err(e) => !coordinates_ok(geo@, train_line@) && e is MalformedCoordinate,
        },
{
    if !line_is_well_formed(train_line, geo) {
        return Err(GeojsonError::MalformedCoordinate);
    }
    match write_body(train_line, geo) {
        Ok(text) => Ok(text),
        Err(e) => Err(GeojsonError::from(e)),
    }
}

/// The views of the lines that a slice refers to.
pub open spec fn identities<'a, 'b>(lines: Seq<&'a TrainLine<'b>>) -> Seq<LineIdentity> {
    lines.map_values(|line: &TrainLine| line@)
}

/// The part of a file name that stands for one line.
pub open spec fn file_stem(id: LineIdentity) -> Seq<char> {
    id.company + "-"@ + id.line
}

/// The name of the file for the lines `ids`, without extension: the stems
/// of the lines in the given order, joined by `_`. No line, no name.
pub open spec fn filename(ids: Seq<LineIdentity>) -> Seq<char> {
    joined(ids.map_values(|id: LineIdentity| file_stem(id)), "_"@)
}

/// The name of the file for `train_lines`, without extension.
pub fn generate_filename(train_lines: &[&TrainLine]) -> (name: String)
    ensures
        name@ == filename(identities(train_lines@)),
{
    let ghost stems = identities(train_lines@).map_values(|id: LineIdentity| file_stem(id));
    let mut name = String::new();
    let mut k: usize = 0;
    while k < train_lines.len()
        invariant
            k <= train_lines.len(),
            stems == identities(train_lines@).map_values(|id: LineIdentity| file_stem(id)),
            name@ == joined(stems.take(k as int), "_"@),
        decreases train_lines.len() - k,
    {
        let train_line = train_lines[k];
        if k > 0 {
            name.append("_");
        }
        name.append(train_line.company_name);
        name.append("-");
        name.append(train_line.line_name);
        proof {
            let now = stems.take(k + 1);
            assert(now.drop_last() =~= stems.take(k as int));
        }
        k += 1;
    }
    assert(stems.take(k as int) =~= stems);
    name
}

/// The bodies of the lines `ids`, one after the other.
pub open spec fn bodies(records: Seq<Record>, ids: Seq<LineIdentity>) -> Seq<char>
    decreases ids.len(),
{
    if ids.len() == 0 {
        Seq::empty()
    } else {
        bodies(records, ids.drop_last()) + kml_body(records, ids.last())
    }
}

/// Every coordinate pair in the sections of each line of `ids` has exactly
/// two components.
pub open spec fn all_coordinates_ok(records: Seq<Record>, ids: Seq<LineIdentity>) -> bool {
    forall|k: int| 0 <= k < ids.len() ==> coordinates_ok(records, #[trigger] ids[k])
}

/// A whole document: the declaration, the opening of the document with its
/// name, the body right behind the name, and the closing.
pub open spec fn document_text(name: Seq<char>, body: Seq<char>) -> Seq<char> {
    "<?xml version=\"1.0\" encoding=\"UTF-8\"?>\n<kml xmlns=\"http://www.opengis.net/kml/2.2\">\n<Document>\n<name>"@
        + name + "</name>"@ + body + "\n</Document>\n</kml>\n"@
}

/// The name of the file that holds the document of the lines `ids`.
pub open spec fn document_name(ids: Seq<LineIdentity>) -> Seq<char> {
    filename(ids) + ".kml"@
}

/// The document of the lines `ids`: it is named like its file, without the
/// extension, and holds the bodies of the lines in the given order.
pub open spec fn document_content(records: Seq<Record>, ids: Seq<LineIdentity>) -> Seq<char> {
    document_text(filename(ids), bodies(records, ids))
}

/// Whether the coordinates of every line of `train_lines` are well formed.
pub(crate) fn lines_are_well_formed(train_lines: &[&TrainLine], geo: &Geo) -> (ok: bool)
    ensures
        ok == all_coordinates_ok(geo@, identities(train_lines@)),
{
    let ghost ids = identities(train_lines@);
    let mut k: usize = 0;
    while k < train_lines.len()
        invariant
            k <= train_lines.len(),
            ids == identities(train_lines@),
            forall|j: int| 0 <= j < k ==> coordinates_ok(geo@, #[trigger] ids[j]),
        decreases train_lines.len() - k,
    {
        assert(ids[k as int] == train_lines[k as int]@);
        if !line_is_well_formed(train_lines[k], geo) {
            return false;
        }
        k += 1;
    }
    true
}

/// The text of a document with the given name for `train_lines`.
///
/// The name is written as it is given. Lines without sections add nothing,
/// and the document is complete all the same.
pub fn build_kml_content(filename: &str, train_lines: &[&TrainLine], geo: &Geo) -> (content:
    Result<String, GeojsonError>)
    ensures
        match content {
            Ok(text) => all_coordinates_ok(geo@, identities(train_lines@)) && text@
                == document_text(filename@, bodies(geo@, identities(train_lines@))),
            Err(e) => !all_coordinates_ok(geo@, identities(train_lines@))
                && e is MalformedCoordinate,
        },
{
    if !lines_are_well_formed(train_lines, geo) {
        return Err(GeojsonError::MalformedCoordinate);
    }
    let ghost ids = identities(train_lines@);
    let mut body = String::new();
    let mut k: usize = 0;
    while k < train_lines.len()
        invariant
            k <= train_lines.len(),
            ids == identities(train_lines@),
            all_coordinates_ok(geo@, ids),
            body@ == bodies(geo@, ids.take(k as int)),
        decreases train_lines.len() - k,
    {
        assert(ids[k as int] == train_lines[k as int]@);
        match write_body(train_lines[k], geo) {
            Ok(text) => {
                body.append(text.as_str());
            },
            Err(e) => {
                return Err(GeojsonError::from(e));
            },
        }
        proof {
            let now = ids.take(k + 1);
            assert(now.drop_last() =~= ids.take(k as int));
        }
        k += 1;
    }
    assert(ids.take(k as int) =~= ids);
    let mut text = String::new();
    text.append(
        "<?xml version=\"1.0\" encoding=\"UTF-8\"?>\n<kml xmlns=\"http://www.opengis.net/kml/2.2\">\n<Document>\n<name>",
    );
    text.append(filename);
    text.append("</name>");
    text.append(body.as_str());
    text.append("\n</Document>\n</kml>\n");
    Ok(text)
}

/// A document and the name of the file that is to hold it.
#[derive(Debug, Clone)]
pub struct GeneratedDocument {
    pub filename: String,
    pub content: String,
}

/// A document as a value: the text of its name and of its content.
pub struct DocumentView {
    pub filename: Seq<char>,
    pub content: Seq<char>,
}

impl View for GeneratedDocument {
    type V = DocumentView;

    open spec fn view(&self) -> DocumentView {
        DocumentView { filename: self.filename@, content: self.content@ }
    }
}

/// The document of the lines `ids` and the name of its file.
pub open spec fn document_of(records: Seq<Record>, ids: Seq<LineIdentity>) -> DocumentView {
    DocumentView { filename: document_name(ids), content: document_content(records, ids) }
}

/// The document of `train_lines`, with the name of its file.
///
/// One line gives the document of that line; several give one document that
/// holds them all, in the given order.
pub fn build_document(train_lines: &[&TrainLine], geo: &Geo) -> (document: Result<
    GeneratedDocument,
    GeojsonError,
>)
    ensures
        match document {
            Ok(doc) => {
                &&& all_coordinates_ok(geo@, identities(train_lines@))
                &&& doc@ == document_of(geo@, identities(train_lines@))
            },
            Err(e) => !all_coordinates_ok(geo@, identities(train_lines@))
                && e is MalformedCoordinate,
        },
{
    let stem = generate_filename(train_lines);
    match build_kml_content(stem.as_str(), train_lines, geo) {
        Ok(content) => {
            let mut filename = stem;
            filename.append(".kml");
            Ok(GeneratedDocument { filename, content })
        },
        Err(e) => Err(e),
    }
}

/// In a dataset whose coordinate pairs all have two components, so have
/// those of every line.
pub proof fn lemma_valid_dataset_has_valid_lines(records: Seq<Record>, ids: Seq<LineIdentity>)
    requires
        geometry_ok(records),
    ensures
        all_coordinates_ok(records, ids),
{
}

/// A line without a section in the dataset has the empty body.
pub proof fn lemma_body_of_absent_line(records: Seq<Record>, id: LineIdentity)
    requires
        forall|i: int| 0 <= i < records.len() ==> (#[trigger] records[i]).identity != id,
    ensures
        matching_count(records, id) == 0,
        placemarks(records, id) == Seq::<Placemark>::empty(),
        kml_body(records, id) == Seq::<char>::empty(),
    decreases records.len(),
{
    if records.len() > 0 {
        lemma_body_of_absent_line(records.drop_last(), id);
    }
}

/// The numbers of the placemarks of a line count its sections: each is below
/// the number of sections of the line, and they never fall from one
/// placemark to the next.
pub proof fn lemma_placemark_numbers(records: Seq<Record>, id: LineIdentity)
    ensures
        forall|k: int|
            0 <= k < placemarks(records, id).len() ==> (#[trigger] placemarks(
                records,
                id,
            )[k]).number < matching_count(records, id),
        forall|j: int, k: int|
            0 <= j <= k < placemarks(records, id).len() ==> (#[trigger] placemarks(
                records,
                id,
            )[j]).number <= (#[trigger] placemarks(records, id)[k]).number,
    decreases records.len(),
{
    if records.len() > 0 {
        lemma_placemark_numbers(records.drop_last(), id);
        let before = placemarks(records.drop_last(), id);
        let now = placemarks(records, id);
        let count = matching_count(records.drop_last(), id);
        assert forall|k: int| 0 <= k < now.len() implies if k < before.len() {
            now[k] == before[k]
        } else {
            (#[trigger] now[k]).number == count && matching_count(records, id) == count + 1
        } by {}
        assert forall|j: int, k: int| 0 <= j <= k < now.len() implies (#[trigger] now[j]).number
            <= (#[trigger] now[k]).number by {
            if j < before.len() && k >= before.len() {
                assert(before[j].number < count);
            }
        }
    }
}

/// Where every section of a line has exactly one chain, the line has one
/// placemark for each of its sections, and their numbers are 0, 1, 2 and so
/// on, in the order of the dataset.
pub proof fn lemma_one_placemark_per_section(records: Seq<Record>, id: LineIdentity)
    requires
        forall|i: int|
            0 <= i < records.len() && (#[trigger] records[i]).identity == id
                ==> records[i].chains.len() == 1,
    ensures
        placemarks(records, id).len() == matching_count(records, id),
        forall|k: int|
            0 <= k < placemarks(records, id).len() ==> (#[trigger] placemarks(
                records,
                id,
            )[k]).number == k,
    decreases records.len(),
{
    if records.len() > 0 {
        lemma_one_placemark_per_section(records.drop_last(), id);
    }
}

/// The name of the file for two groups of lines is the name for the first,
/// `_`, and the name for the second.
pub proof fn lemma_filename_joins(first: Seq<LineIdentity>, second: Seq<LineIdentity>)
    requires
        first.len() > 0,
        second.len() > 0,
    ensures
        filename(first + second) == filename(first) + "_"@ + filename(second),
{
    let stem = |id: LineIdentity| file_stem(id);
    assert((first + second).map_values(stem) =~= first.map_values(stem) + second.map_values(stem));
    lemma_joined_concat(first.map_values(stem), second.map_values(stem), "_"@);
}

/// The name of the file for two lines is the name for the first, `_`, and
/// the name for the second.
pub proof fn lemma_filename_of_two(a: LineIdentity, b: LineIdentity)
    ensures
        filename(seq![a, b]) == filename(seq![a]) + "_"@ + filename(seq![b]),
{
    assert(seq![a, b] =~= seq![a] + seq![b]);
    lemma_filename_joins(seq![a], seq![b]);
}

} // verus!
