use geojson2kml::error::GeojsonError;
use geojson2kml::io::{InputReader, MockInputReader, MockOutputWriter, OutputWriter};
use geojson2kml::kml::{build_document, build_kml_content, generate_filename, generate_kml_body};
use geojson2kml::model::{Crs, Feature, Geo, GeoProperty, Geometry, Property, TrainLine};
use geojson2kml::search::search_candidates;
use geojson2kml::selection::parse_selection;
use geojson2kml::text::{chars_contain, decimal_string, str_concat, str_eq, to_chars};
use geojson2kml::ui::{
    announcement, ask_merge_preference, choose_candidates, display_candidates, process_query,
    report, Output, Phase, SessionState,
};

fn section(company: &str, line: &str, chains: Vec<Vec<Vec<String>>>) -> Feature {
    Feature {
        kind: "Feature".to_string(),
        properties: GeoProperty {
            N02_001: "11".to_string(),
            N02_002: "2".to_string(),
            N02_003: line.to_string(),
            N02_004: company.to_string(),
        },
        geometry: Geometry { kind: "MultiLineString".to_string(), coordinates: chains },
    }
}

fn dataset(features: Vec<Feature>) -> Geo {
    Geo {
        kind: "FeatureCollection".to_string(),
        name: "sample".to_string(),
        crs: Crs {
            kind: "name".to_string(),
            properties: Property { name: "urn:ogc:def:crs:EPSG::6668".to_string() },
        },
        features,
    }
}

fn number(x: f64) -> String {
    format!("{}", x)
}

fn chain(points: &[(f64, f64)]) -> Vec<Vec<String>> {
    points.iter().map(|p| vec![number(p.0), number(p.1)]).collect()
}

fn three_lines() -> Geo {
    dataset(vec![
        section("XYZ鉄道", "テスト線B", vec![chain(&[(300.0, 400.0), (301.0, 401.0)])]),
        section("JR東日本", "山手線", vec![chain(&[(500.0, 600.0)])]),
        section("ABC鉄道", "テスト線A", vec![chain(&[(100.0, 200.0), (101.0, 201.0)])]),
        section("ABC鉄道", "テスト線A", vec![chain(&[(102.0, 202.0)])]),
    ])
}

fn names(found: &[TrainLine]) -> Vec<(String, String)> {
    found.iter().map(|t| (t.company_name.to_string(), t.line_name.to_string())).collect()
}

fn owned(pairs: &[(&str, &str)]) -> Vec<(String, String)> {
    pairs.iter().map(|p| (p.0.to_string(), p.1.to_string())).collect()
}

const ONE_PLACEMARK: &str = "<Placemark>\n  <name>ABC鉄道 テスト線A 0</name>\n  <LineString>\n    <coordinates>\n      100,200,0\n      101,201,0\n    </coordinates>\n  </LineString>\n</Placemark>";

#[test]
fn round_trip_of_one_section() {
    let geo = dataset(vec![section(
        "ABC鉄道",
        "テスト線A",
        vec![chain(&[(100.0, 200.0), (101.0, 201.0)])],
    )]);
    let found = search_candidates("テスト線A", &geo);
    assert_eq!(names(&found), owned(&[("ABC鉄道", "テスト線A")]));
    let body = generate_kml_body(&found[0], &geo).unwrap();
    assert_eq!(body, ONE_PLACEMARK);
}

#[test]
fn two_sections_give_two_numbered_placemarks() {
    let geo = dataset(vec![
        section("ABC鉄道", "テスト線A", vec![chain(&[(100.0, 200.0), (101.0, 201.0)])]),
        section("ABC鉄道", "テスト線A", vec![chain(&[(1.5, -2.25)])]),
    ]);
    let line = TrainLine { company_name: "ABC鉄道", line_name: "テスト線A" };
    let body = generate_kml_body(&line, &geo).unwrap();
    let second = "<Placemark>\n  <name>ABC鉄道 テスト線A 1</name>\n  <LineString>\n    <coordinates>\n      1.5,-2.25,0\n    </coordinates>\n  </LineString>\n</Placemark>";
    assert_eq!(body, format!("{}{}", ONE_PLACEMARK, second));
}

#[test]
fn chains_of_one_section_share_its_number() {
    let geo = dataset(vec![
        section("K", "L", vec![chain(&[(1.0, 2.0)]), chain(&[(3.0, 4.0)])]),
        section("other", "L", vec![chain(&[(9.0, 9.0)])]),
        section("K", "L", vec![chain(&[(5.0, 6.0)])]),
    ]);
    let line = TrainLine { company_name: "K", line_name: "L" };
    let body = generate_kml_body(&line, &geo).unwrap();
    assert_eq!(body.matches("<Placemark>").count(), 3);
    assert_eq!(body.matches("<name>K L 0</name>").count(), 2);
    assert_eq!(body.matches("<name>K L 1</name>").count(), 1);
    assert_eq!(body.matches("<name>K L 2</name>").count(), 0);
    let first = body.find("1,2,0").unwrap();
    let second = body.find("3,4,0").unwrap();
    let third = body.find("5,6,0").unwrap();
    assert!(first < second && second < third);
    assert!(!body.contains("9,9,0"));
}

#[test]
fn eleven_sections_are_numbered_in_decimal() {
    let mut features = Vec::new();
    for i in 0..11 {
        features.push(section("K", "L", vec![chain(&[(i as f64, 0.0)])]));
    }
    let geo = dataset(features);
    let line = TrainLine { company_name: "K", line_name: "L" };
    let body = generate_kml_body(&line, &geo).unwrap();
    assert_eq!(body.matches("<Placemark>").count(), 11);
    assert!(body.contains("<name>K L 9</name>"));
    assert!(body.contains("<name>K L 10</name>"));
    assert!(!body.contains("<name>K L 11</name>"));
}

#[test]
fn match_of_a_body_is_exact_not_by_substring() {
    let geo = dataset(vec![section("ABC鉄道", "テスト線A", vec![chain(&[(1.0, 2.0)])])]);
    let part = TrainLine { company_name: "ABC", line_name: "テスト線A" };
    assert_eq!(generate_kml_body(&part, &geo).unwrap(), "");
    let swapped = TrainLine { company_name: "テスト線A", line_name: "ABC鉄道" };
    assert_eq!(generate_kml_body(&swapped, &geo).unwrap(), "");
}

#[test]
fn names_and_coordinates_are_escaped_in_a_placemark() {
    let geo = dataset(vec![section(
        "A&B<C>",
        "\"x'y\"\r",
        vec![vec![vec!["<1>".to_string(), "2&3".to_string()]]],
    )]);
    let line = TrainLine { company_name: "A&B<C>", line_name: "\"x'y\"\r" };
    let body = generate_kml_body(&line, &geo).unwrap();
    assert_eq!(
        body,
        "<Placemark>\n  <name>A&amp;B&lt;C&gt; &quot;x&apos;y&quot;&#13; 0</name>\n  <LineString>\n    <coordinates>\n      &lt;1&gt;,2&amp;3,0\n    </coordinates>\n  </LineString>\n</Placemark>"
    );
}

#[test]
fn a_chain_without_pairs_has_empty_coordinates() {
    let geo = dataset(vec![section("K", "L", vec![vec![]])]);
    let line = TrainLine { company_name: "K", line_name: "L" };
    let body = generate_kml_body(&line, &geo).unwrap();
    assert_eq!(
        body,
        "<Placemark>\n  <name>K L 0</name>\n  <LineString>\n    <coordinates>\n      \n    </coordinates>\n  </LineString>\n</Placemark>"
    );
}

#[test]
fn a_section_without_chains_counts_but_gives_no_placemark() {
    let geo = dataset(vec![
        section("K", "L", vec![]),
        section("K", "L", vec![chain(&[(1.0, 2.0)])]),
    ]);
    let line = TrainLine { company_name: "K", line_name: "L" };
    let body = generate_kml_body(&line, &geo).unwrap();
    assert_eq!(body.matches("<Placemark>").count(), 1);
    assert!(body.contains("<name>K L 1</name>"));
}

#[test]
fn a_pair_with_three_components_is_fatal() {
    let geo = dataset(vec![
        section("K", "L", vec![chain(&[(1.0, 2.0)])]),
        section(
            "K",
            "L",
            vec![vec![vec!["1".to_string(), "2".to_string(), "3".to_string()]]],
        ),
        section("M", "N", vec![chain(&[(1.0, 2.0)])]),
    ]);
    let bad = TrainLine { company_name: "K", line_name: "L" };
    assert!(matches!(generate_kml_body(&bad, &geo), Err(GeojsonError::MalformedCoordinate)));
    assert!(matches!(build_document(&[&bad], &geo), Err(GeojsonError::MalformedCoordinate)));
    let good = TrainLine { company_name: "M", line_name: "N" };
    assert!(generate_kml_body(&good, &geo).is_ok());
    assert!(matches!(
        build_document(&[&good, &bad], &geo),
        Err(GeojsonError::MalformedCoordinate)
    ));
    assert!(!geo.has_valid_coordinates());
}

#[test]
fn a_pair_with_one_component_is_fatal() {
    let geo = dataset(vec![section("K", "L", vec![vec![vec!["1".to_string()]]])]);
    let line = TrainLine { company_name: "K", line_name: "L" };
    assert!(matches!(generate_kml_body(&line, &geo), Err(GeojsonError::MalformedCoordinate)));
}

#[test]
fn valid_coordinates_are_recognised() {
    assert!(three_lines().has_valid_coordinates());
    assert!(dataset(vec![]).has_valid_coordinates());
    assert!(dataset(vec![section("K", "L", vec![vec![]])]).has_valid_coordinates());
}

#[test]
fn document_of_one_line() {
    let geo = dataset(vec![section(
        "ABC鉄道",
        "テスト線A",
        vec![chain(&[(100.0, 200.0), (101.0, 201.0)])],
    )]);
    let line = TrainLine { company_name: "ABC鉄道", line_name: "テスト線A" };
    let document = build_document(&[&line], &geo).unwrap();
    assert_eq!(document.filename, "ABC鉄道-テスト線A.kml");
    let expected = format!(
        "<?xml version=\"1.0\" encoding=\"UTF-8\"?>\n<kml xmlns=\"http://www.opengis.net/kml/2.2\">\n<Document>\n<name>ABC鉄道-テスト線A</name>{}\n</Document>\n</kml>\n",
        ONE_PLACEMARK
    );
    assert_eq!(document.content, expected);
}

#[test]
fn document_of_two_lines_holds_both_bodies_in_order() {
    let geo = three_lines();
    let a = TrainLine { company_name: "ABC鉄道", line_name: "テスト線A" };
    let b = TrainLine { company_name: "XYZ鉄道", line_name: "テスト線B" };
    let document = build_document(&[&b, &a], &geo).unwrap();
    assert_eq!(document.filename, "XYZ鉄道-テスト線B_ABC鉄道-テスト線A.kml");
    let body_a = generate_kml_body(&a, &geo).unwrap();
    let body_b = generate_kml_body(&b, &geo).unwrap();
    let expected = format!(
        "<?xml version=\"1.0\" encoding=\"UTF-8\"?>\n<kml xmlns=\"http://www.opengis.net/kml/2.2\">\n<Document>\n<name>XYZ鉄道-テスト線B_ABC鉄道-テスト線A</name>{}{}\n</Document>\n</kml>\n",
        body_b, body_a
    );
    assert_eq!(document.content, expected);
}

#[test]
fn document_without_any_match_is_still_whole() {
    let geo = three_lines();
    let nobody = TrainLine { company_name: "無", line_name: "線" };
    let document = build_document(&[&nobody], &geo).unwrap();
    assert_eq!(document.filename, "無-線.kml");
    assert_eq!(
        document.content,
        "<?xml version=\"1.0\" encoding=\"UTF-8\"?>\n<kml xmlns=\"http://www.opengis.net/kml/2.2\">\n<Document>\n<name>無-線</name>\n</Document>\n</kml>\n"
    );
}

#[test]
fn the_name_of_a_document_is_written_as_given() {
    let geo = dataset(vec![]);
    let content = build_kml_content("a&b", &[], &geo).unwrap();
    assert_eq!(
        content,
        "<?xml version=\"1.0\" encoding=\"UTF-8\"?>\n<kml xmlns=\"http://www.opengis.net/kml/2.2\">\n<Document>\n<name>a&b</name>\n</Document>\n</kml>\n"
    );
}

#[test]
fn filename_of_a_pair_joins_the_two_filenames() {
    let a = TrainLine { company_name: "ABC鉄道", line_name: "テスト線A" };
    let b = TrainLine { company_name: "XYZ鉄道", line_name: "テスト線B" };
    let c = TrainLine { company_name: "", line_name: "" };
    let both = generate_filename(&[&a, &b]);
    assert_eq!(both, format!("{}_{}", generate_filename(&[&a]), generate_filename(&[&b])));
    assert_eq!(both, "ABC鉄道-テスト線A_XYZ鉄道-テスト線B");
    assert_eq!(generate_filename(&[&c]), "-");
    assert_eq!(generate_filename(&[&a, &c, &b]), "ABC鉄道-テスト線A_-_XYZ鉄道-テスト線B");
}

#[test]
fn candidates_come_once_each_and_in_order() {
    let geo = three_lines();
    let found = search_candidates("線", &geo);
    assert_eq!(
        names(&found),
        owned(&[("ABC鉄道", "テスト線A"), ("JR東日本", "山手線"), ("XYZ鉄道", "テスト線B")])
    );
}

#[test]
fn candidates_do_not_depend_on_the_order_of_sections() {
    let geo = three_lines();
    let mut features = geo.features.clone();
    features.reverse();
    let reversed = dataset(features);
    for query in ["線", "テスト", "鉄道", "", "JR", "nothing"] {
        assert_eq!(
            names(&search_candidates(query, &geo)),
            names(&search_candidates(query, &reversed))
        );
    }
}

#[test]
fn candidates_of_one_operator_are_ordered_by_line() {
    let geo = dataset(vec![
        section("B", "a", vec![]),
        section("A", "z", vec![]),
        section("A", "b", vec![]),
        section("A", "ab", vec![]),
        section("AA", "a", vec![]),
        section("A", "b", vec![]),
    ]);
    let found = search_candidates("", &geo);
    assert_eq!(
        names(&found),
        owned(&[("A", "ab"), ("A", "b"), ("A", "z"), ("AA", "a"), ("B", "a")])
    );
}

#[test]
fn every_candidate_contains_the_query() {
    let geo = three_lines();
    for query in ["線", "テスト", "鉄道", "東", "A"] {
        let found = search_candidates(query, &geo);
        assert!(!found.is_empty());
        for line in &found {
            assert!(line.line_name.contains(query) || line.company_name.contains(query));
        }
    }
}

#[test]
fn search_is_case_sensitive_and_does_not_trim() {
    let geo = three_lines();
    assert_eq!(search_candidates("abc", &geo).len(), 0);
    assert_eq!(search_candidates("ABC", &geo).len(), 1);
    assert_eq!(search_candidates(" ABC", &geo).len(), 0);
}

#[test]
fn the_empty_query_matches_every_section() {
    let geo = dataset(vec![section("", "", vec![]), section("K", "L", vec![])]);
    let found = search_candidates("", &geo);
    assert_eq!(names(&found), owned(&[("", ""), ("K", "L")]));
}

#[test]
fn selection_of_two_numbers() {
    assert_eq!(parse_selection("0,2", 3).unwrap(), vec![0, 2]);
}

#[test]
fn selection_is_ascending_and_without_repeats() {
    assert_eq!(parse_selection("2, 0 ,2,1,0", 3).unwrap(), vec![0, 1, 2]);
    assert_eq!(parse_selection(" 1 ", 3).unwrap(), vec![1]);
    assert_eq!(parse_selection("+1,007", 8).unwrap(), vec![1, 7]);
    assert_eq!(parse_selection("\u{3000}1\t,\u{a0}0\u{2003}", 2).unwrap(), vec![0, 1]);
}

fn rejected(input: &str, count: usize) -> String {
    match parse_selection(input, count) {
        Err(GeojsonError::InvalidInput(what)) => what,
        Err(other) => panic!("another error: {:?}", other),
        Ok(ids) => panic!("accepted: {:?}", ids),
    }
}

#[test]
fn selection_out_of_range_is_rejected() {
    assert_eq!(rejected("5", 3), "5 is invalid");
    assert_eq!(rejected("3", 3), "3 is invalid");
    assert_eq!(rejected("0", 0), "0 is invalid");
    assert_eq!(rejected("0, 1,9 ,x", 3), "9 is invalid");
    assert_eq!(
        rejected("99999999999999999999999999999999", 3),
        "99999999999999999999999999999999 is invalid"
    );
}

#[test]
fn selection_that_is_no_number_is_rejected() {
    assert_eq!(rejected("", 3), " is invalid");
    assert_eq!(rejected("   ", 3), " is invalid");
    assert_eq!(rejected("1,,2", 3), " is invalid");
    assert_eq!(rejected("1,", 3), " is invalid");
    assert_eq!(rejected("abc", 3), "abc is invalid");
    assert_eq!(rejected("-1", 3), "-1 is invalid");
    assert_eq!(rejected("+", 3), "+ is invalid");
    assert_eq!(rejected("++1", 3), "++1 is invalid");
    assert_eq!(rejected("1 2", 3), "1 2 is invalid");
    assert_eq!(rejected("1.0", 3), "1.0 is invalid");
    assert_eq!(rejected("１", 3), "１ is invalid");
    assert_eq!(rejected("0, q", 3), "q is invalid");
}

fn lines(texts: &[&str]) -> Vec<Output> {
    texts.iter().map(|t| Output::Line(t.to_string())).collect()
}

#[test]
fn a_conversation_begins_with_the_query_prompt() {
    let state = SessionState::new();
    assert!(matches!(state.phase(), Phase::Prompting));
    assert!(!state.is_done());
    assert_eq!(
        state.prompt(),
        lines(&[
            "==================================",
            "enter train company name or line name or 'q' to exit:"
        ])
    );
}

#[test]
fn quit_ends_the_conversation() {
    let geo = three_lines();
    let step = SessionState::new().on_line("q", &geo).unwrap();
    assert!(step.state.is_done());
    assert!(step.outputs.is_empty());
    assert!(step.documents.is_empty());
    assert!(step.state.prompt().is_empty());
    let after = step.state.on_line("線", &geo).unwrap();
    assert!(after.state.is_done());
    assert!(after.outputs.is_empty());
    assert!(after.documents.is_empty());
}

#[test]
fn a_query_without_match_is_reported_and_asked_again() {
    let geo = three_lines();
    let step = SessionState::new().on_line("新幹線", &geo).unwrap();
    assert!(matches!(step.state.phase(), Phase::Prompting));
    assert_eq!(step.outputs, vec![Output::Error("新幹線 is not found...".to_string())]);
    assert!(step.documents.is_empty());
}

#[test]
fn a_single_candidate_is_taken_without_a_question() {
    let geo = three_lines();
    let step = SessionState::new().on_line("山手", &geo).unwrap();
    assert!(matches!(step.state.phase(), Phase::Prompting));
    assert!(step.outputs.is_empty());
    assert_eq!(step.documents.len(), 1);
    assert_eq!(step.documents[0].filename, "JR東日本-山手線.kml");
    let line = TrainLine { company_name: "JR東日本", line_name: "山手線" };
    assert_eq!(step.documents[0].content, build_document(&[&line], &geo).unwrap().content);
    assert!(step.documents[0].content.contains("<name>JR東日本 山手線 0</name>"));
}

fn resolving(geo: &Geo) -> SessionState<'_> {
    let step = SessionState::new().on_line("線", geo).unwrap();
    assert_eq!(
        step.outputs,
        lines(&[
            "candidates:",
            "[0] ABC鉄道 テスト線A",
            "[1] JR東日本 山手線",
            "[2] XYZ鉄道 テスト線B"
        ])
    );
    assert!(step.documents.is_empty());
    step.state
}

#[test]
fn several_candidates_are_listed_and_a_choice_is_awaited() {
    let geo = three_lines();
    let state = resolving(&geo);
    match state.phase() {
        Phase::Resolving { candidates } => assert_eq!(candidates.len(), 3),
        other => panic!("another phase: {:?}", other),
    }
    assert_eq!(state.prompt(), lines(&["choose '0'...'2' or : 'q' to exit"]));
}

#[test]
fn choice_of_two_of_three_candidates() {
    let geo = three_lines();
    let step = resolving(&geo).on_line("0,2", &geo).unwrap();
    match step.state.phase() {
        Phase::Branching { candidates, chosen } => {
            assert_eq!(candidates.len(), 3);
            assert_eq!(chosen, &vec![0, 2]);
        },
        other => panic!("another phase: {:?}", other),
    }
    assert!(step.outputs.is_empty());
    assert!(step.documents.is_empty());
    assert_eq!(step.state.prompt(), lines(&["merge lines? [yes/no]:"]));
}

#[test]
fn choice_out_of_range_is_complained_about_and_awaited_again() {
    let geo = three_lines();
    let step = resolving(&geo).on_line("5", &geo).unwrap();
    assert_eq!(step.outputs, vec![Output::Error("Invalid input: 5 is invalid".to_string())]);
    assert!(step.documents.is_empty());
    match step.state.phase() {
        Phase::Resolving { candidates } => assert_eq!(candidates.len(), 3),
        other => panic!("another phase: {:?}", other),
    }
    assert_eq!(step.state.prompt(), lines(&["choose '0'...'2' or : 'q' to exit"]));
    let again = step.state.on_line("0,x", &geo).unwrap();
    assert_eq!(again.outputs, vec![Output::Error("Invalid input: x is invalid".to_string())]);
    let chosen = again.state.on_line("1", &geo).unwrap();
    assert!(matches!(chosen.state.phase(), Phase::Prompting));
    assert_eq!(chosen.documents.len(), 1);
    assert_eq!(chosen.documents[0].filename, "JR東日本-山手線.kml");
}

#[test]
fn quit_at_the_choice_returns_to_the_query_in_silence() {
    let geo = three_lines();
    let step = resolving(&geo).on_line("q", &geo).unwrap();
    assert!(matches!(step.state.phase(), Phase::Prompting));
    assert!(step.outputs.is_empty());
    assert!(step.documents.is_empty());
}

#[test]
fn merged_lines_give_one_document() {
    let geo = three_lines();
    let step = resolving(&geo).on_line("2,0", &geo).unwrap().state.on_line("yes", &geo).unwrap();
    assert!(matches!(step.state.phase(), Phase::Prompting));
    assert!(step.outputs.is_empty());
    assert_eq!(step.documents.len(), 1);
    assert_eq!(step.documents[0].filename, "ABC鉄道-テスト線A_XYZ鉄道-テスト線B.kml");
    let a = TrainLine { company_name: "ABC鉄道", line_name: "テスト線A" };
    let b = TrainLine { company_name: "XYZ鉄道", line_name: "テスト線B" };
    assert_eq!(step.documents[0].content, build_document(&[&a, &b], &geo).unwrap().content);
}

#[test]
fn lines_that_are_not_merged_give_a_document_each() {
    let geo = three_lines();
    for answer in ["no", "", "Yes", "YES", " yes", "y"] {
        let step =
            resolving(&geo).on_line("2,0", &geo).unwrap().state.on_line(answer, &geo).unwrap();
        assert!(matches!(step.state.phase(), Phase::Prompting));
        assert!(step.outputs.is_empty());
        let files: Vec<&str> = step.documents.iter().map(|d| d.filename.as_str()).collect();
        assert_eq!(files, vec!["ABC鉄道-テスト線A.kml", "XYZ鉄道-テスト線B.kml"]);
        let a = TrainLine { company_name: "ABC鉄道", line_name: "テスト線A" };
        assert_eq!(step.documents[0].content, build_document(&[&a], &geo).unwrap().content);
    }
}

#[test]
fn corrupt_coordinates_end_a_step_with_the_fatal_error() {
    let geo = dataset(vec![section("K", "L", vec![vec![vec!["1".to_string()]]])]);
    assert!(matches!(
        SessionState::new().on_line("K", &geo),
        Err(GeojsonError::MalformedCoordinate)
    ));
    assert!(SessionState::new().on_line("none", &geo).is_ok());
}

#[test]
fn a_query_without_match_fails_with_the_query() {
    let geo = three_lines();
    match process_query("新幹線", &geo) {
        Err(GeojsonError::NoMatchFound(query)) => assert_eq!(query, "新幹線"),
        Err(other) => panic!("another error: {:?}", other),
        Ok(_) => panic!("a match"),
    }
    let listed = process_query("線", &geo).unwrap();
    assert_eq!(listed.outputs.len(), 4);
    assert!(matches!(listed.state.phase(), Phase::Resolving { .. }));
    let taken = process_query("山手", &geo).unwrap();
    assert_eq!(taken.documents.len(), 1);
}

#[test]
fn a_choice_that_is_given_up_fails_as_cancelled() {
    let geo = three_lines();
    let found = search_candidates("線", &geo);
    assert!(matches!(
        choose_candidates(found.clone(), "q", &geo),
        Err(GeojsonError::UserCancelled)
    ));
    let complained = choose_candidates(found.clone(), " q", &geo).unwrap();
    assert_eq!(complained.outputs, vec![Output::Error("Invalid input: q is invalid".to_string())]);
    let chosen = choose_candidates(found, "2", &geo).unwrap();
    assert_eq!(chosen.documents.len(), 1);
    assert_eq!(chosen.documents[0].filename, "XYZ鉄道-テスト線B.kml");
}

#[test]
fn candidates_come_in_the_order_of_an_ordered_set() {
    let geo = dataset(vec![
        section("東", "b", vec![]),
        section("B", "a", vec![]),
        section("A", "z", vec![]),
        section("é", "b", vec![]),
        section("A", "", vec![]),
        section("", "z", vec![]),
        section("a", "A", vec![]),
        section("AA", "a", vec![]),
        section("A", "zz", vec![]),
        section("\u{10000}", "a", vec![]),
        section("\u{ffff}", "a", vec![]),
    ]);
    let found = search_candidates("", &geo);
    let set: std::collections::BTreeSet<TrainLine> = found.iter().cloned().collect();
    let ordered: Vec<TrainLine> = set.into_iter().collect();
    assert_eq!(found.len(), 11);
    assert_eq!(found, ordered);
}

fn converse(inputs: &[&str], geo: &Geo) -> (MockOutputWriter, Vec<String>, Option<GeojsonError>) {
    let mut reader = MockInputReader::new(inputs.iter().map(|t| t.to_string()).collect());
    let mut writer = MockOutputWriter::new();
    let mut stored = Vec::new();
    let mut state = SessionState::new();
    while !state.is_done() {
        let mut shown = state.prompt();
        let line = match reader.read_line() {
            Ok(line) => line,
            Err(e) => {
                show(&mut writer, shown);
                return (writer, stored, Some(e));
            },
        };
        let step = state.on_line(&line, geo).unwrap();
        shown.extend(step.outputs);
        show(&mut writer, shown);
        for document in &step.documents {
            show(&mut writer, vec![announcement(document)]);
            let outcome = if document.filename.starts_with("JR") {
                Err(GeojsonError::from(std::io::Error::new(
                    std::io::ErrorKind::PermissionDenied,
                    "read-only",
                )))
            } else {
                stored.push(document.filename.clone());
                Ok(())
            };
            show(&mut writer, vec![report(&outcome)]);
        }
        state = step.state;
    }
    (writer, stored, None)
}

fn show(writer: &mut MockOutputWriter, outputs: Vec<Output>) {
    for output in outputs {
        match output {
            Output::Line(text) => writer.write_line(&text).unwrap(),
            Output::Error(text) => writer.write_error(&text).unwrap(),
        }
    }
}

const SEPARATOR: &str = "==================================";
const QUERY: &str = "enter train company name or line name or 'q' to exit:";
const RANGE: &str = "choose '0'...'2' or : 'q' to exit";
const LISTING: [&str; 4] =
    ["candidates:", "[0] ABC鉄道 テスト線A", "[1] JR東日本 山手線", "[2] XYZ鉄道 テスト線B"];

#[test]
fn a_whole_conversation() {
    let geo = three_lines();
    let (writer, stored, failure) =
        converse(&["線", "5", "0, 2", "yes", "山手", "新幹線", "線", "q", "線", "1,2", "no", "q"], &geo);
    assert!(failure.is_none());
    let mut lines: Vec<&str> = vec![SEPARATOR, QUERY];
    lines.extend(LISTING);
    lines.extend([RANGE, RANGE, "merge lines? [yes/no]:"]);
    lines.extend(["creating ABC鉄道-テスト線A_XYZ鉄道-テスト線B.kml ...", "succeeded!!"]);
    lines.extend([SEPARATOR, QUERY, "creating JR東日本-山手線.kml ..."]);
    lines.extend([SEPARATOR, QUERY]);
    lines.extend([SEPARATOR, QUERY]);
    lines.extend(LISTING);
    lines.extend([RANGE]);
    lines.extend([SEPARATOR, QUERY]);
    lines.extend(LISTING);
    lines.extend([RANGE, "merge lines? [yes/no]:"]);
    lines.extend(["creating JR東日本-山手線.kml ...", "creating XYZ鉄道-テスト線B.kml ...", "succeeded!!"]);
    lines.extend([SEPARATOR, QUERY]);
    assert_eq!(writer.lines, lines);
    assert_eq!(
        writer.errors,
        vec![
            "Invalid input: 5 is invalid",
            "File I/O error: read-only",
            "新幹線 is not found...",
            "File I/O error: read-only"
        ]
    );
    assert_eq!(stored, vec!["ABC鉄道-テスト線A_XYZ鉄道-テスト線B.kml", "XYZ鉄道-テスト線B.kml"]);
}

#[test]
fn a_conversation_whose_input_ends() {
    let geo = three_lines();
    let (writer, stored, failure) = converse(&["線", "0"], &geo);
    assert!(matches!(failure, Some(GeojsonError::InvalidInput(_))));
    assert_eq!(stored, vec!["ABC鉄道-テスト線A.kml"]);
    assert_eq!(writer.lines.last().map(String::as_str), Some(QUERY));
    assert!(writer.errors.is_empty());
}

#[test]
fn only_yes_merges() {
    assert!(ask_merge_preference("yes"));
    assert!(!ask_merge_preference("no"));
    assert!(!ask_merge_preference("Yes"));
    assert!(!ask_merge_preference("yes "));
    assert!(!ask_merge_preference(""));
}

#[test]
fn listing_numbers_more_than_ten_candidates() {
    let texts: Vec<String> = (0..12).map(|i| format!("line{:02}", i)).collect();
    let found: Vec<TrainLine> =
        texts.iter().map(|t| TrainLine { company_name: "K", line_name: t.as_str() }).collect();
    let shown = display_candidates(&found);
    assert_eq!(shown.len(), 13);
    assert_eq!(shown[0], Output::Line("candidates:".to_string()));
    assert_eq!(shown[1], Output::Line("[0] K line00".to_string()));
    assert_eq!(shown[11], Output::Line("[10] K line10".to_string()));
    assert_eq!(shown[12], Output::Line("[11] K line11".to_string()));
    assert_eq!(display_candidates(&[]), lines(&["candidates:"]));
}

#[test]
fn storing_a_document_is_announced_and_reported() {
    let geo = three_lines();
    let line = TrainLine { company_name: "JR東日本", line_name: "山手線" };
    let document = build_document(&[&line], &geo).unwrap();
    assert_eq!(announcement(&document), Output::Line("creating JR東日本-山手線.kml ...".to_string()));
    assert_eq!(report(&Ok(())), Output::Line("succeeded!!".to_string()));
    let failure = std::io::Error::new(std::io::ErrorKind::PermissionDenied, "denied");
    assert_eq!(
        report(&Err(GeojsonError::from(failure))),
        Output::Error("File I/O error: denied".to_string())
    );
}

#[test]
fn messages_of_the_errors() {
    assert_eq!(
        GeojsonError::InvalidInput("5 is invalid".to_string()).to_string(),
        "Invalid input: 5 is invalid"
    );
    assert_eq!(
        GeojsonError::NoMatchFound("山手".to_string()).to_string(),
        "No matches found for: 山手"
    );
    assert_eq!(GeojsonError::UserCancelled.to_string(), "Operation cancelled by user");
    assert_eq!(
        GeojsonError::MalformedCoordinate.to_string(),
        "Malformed geometry: a coordinate pair must have exactly 2 components"
    );
    let io = std::io::Error::new(std::io::ErrorKind::NotFound, "no such file");
    assert_eq!(GeojsonError::from(io).to_string(), "File I/O error: no such file");
    let json = serde_json::from_str::<serde_json::Value>("{").unwrap_err();
    let text = format!("{}", json);
    let error = GeojsonError::from(json);
    assert!(matches!(error, GeojsonError::JsonParseError(_)));
    assert_eq!(error.to_string(), format!("JSON parsing error: {}", text));
}

#[test]
fn the_reader_hands_out_its_lines_and_then_fails() {
    let mut reader = MockInputReader::new(vec!["first".to_string(), "".to_string()]);
    assert_eq!(reader.read_line().unwrap(), "first");
    assert_eq!(reader.read_line().unwrap(), "");
    for _ in 0..2 {
        match reader.read_line() {
            Err(GeojsonError::InvalidInput(what)) => assert_eq!(what, "No more input available"),
            other => panic!("not the error of an empty reader: {:?}", other),
        }
    }
    let mut empty = MockInputReader::new(Vec::new());
    assert!(empty.read_line().is_err());
}

#[test]
fn the_writer_keeps_its_two_channels_apart() {
    let mut writer = MockOutputWriter::new();
    assert!(writer.lines.is_empty() && writer.errors.is_empty());
    writer.write_line("one").unwrap();
    writer.write_error("bad").unwrap();
    writer.write_line("two").unwrap();
    assert_eq!(writer.lines, vec!["one".to_string(), "two".to_string()]);
    assert_eq!(writer.errors, vec!["bad".to_string()]);
}

#[test]
fn decimal_numerals() {
    assert_eq!(decimal_string(0), "0");
    assert_eq!(decimal_string(7), "7");
    assert_eq!(decimal_string(10), "10");
    assert_eq!(decimal_string(12345), "12345");
    assert_eq!(decimal_string(1000000007), "1000000007");
    assert_eq!(decimal_string(usize::MAX), format!("{}", usize::MAX));
}

fn str_contains(hay: &str, needle: &str) -> bool {
    chars_contain(&to_chars(hay), &to_chars(needle))
}

#[test]
fn substrings() {
    assert!(str_contains("テスト線A", "スト"));
    assert!(str_contains("テスト線A", "テスト線A"));
    assert!(str_contains("テスト線A", "A"));
    assert!(str_contains("テスト線A", ""));
    assert!(str_contains("", ""));
    assert!(!str_contains("", "a"));
    assert!(!str_contains("テスト線A", "テスト線AB"));
    assert!(!str_contains("テスト線A", "テ線"));
    assert!(!str_contains("abc", "B"));
    assert!(str_contains("aab", "ab"));
}

#[test]
fn texts_and_their_characters() {
    assert_eq!(to_chars("山手線A"), vec!['山', '手', '線', 'A']);
    assert!(to_chars("").is_empty());
    assert_eq!(str_concat("山手", "線"), "山手線");
    assert!(str_eq("山手線", "山手線"));
    assert!(!str_eq("山手線", "山手"));
    assert!(!str_eq("a", "b"));
    assert!(str_eq("", ""));
}
