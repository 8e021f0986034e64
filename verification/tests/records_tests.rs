use gfa::Containment;
use gfa::GFAParsingConfig;
use gfa::GfaError;
use gfa::Header;
use gfa::Line;
use gfa::Link;
use gfa::Orientation;
use gfa::Path;
use gfa::Segment;
use gfa::GFA;

#[test]
fn create_path() {
    let name = "path1";
    let seg_names = vec!["1+", "2-", "13-", "60+"];
    let overlaps: Vec<_> = vec!["8M", "10M", "0M", "2M"]
        .into_iter()
        .map(String::from)
        .collect();

    let path_expected = Path {
        path_name: name.to_string(),
        segment_names: vec![
            ("1".to_string(), Orientation::Forward),
            ("2".to_string(), Orientation::Backward),
            ("13".to_string(), Orientation::Backward),
            ("60".to_string(), Orientation::Forward),
        ],
        overlaps: overlaps.clone(),
        optional_fields: Vec::new(),
    };

    let path = Path::new(name, seg_names, overlaps).unwrap();

    assert_eq!(path, path_expected);
}

#[test]
fn path_rejects_bad_tokens() {
    assert_eq!(
        Path::new("p", vec!["1+", "foo"], Vec::new()),
        Err(GfaError::MalformedPathToken)
    );
    assert_eq!(
        Path::new("p", vec![""], Vec::new()),
        Err(GfaError::MalformedPathToken)
    );
}

#[test]
fn path_token_with_empty_name_is_kept() {
    let path = Path::new("p", vec!["+"], Vec::new()).unwrap();
    assert_eq!(
        path.segment_names,
        vec![(String::new(), Orientation::Forward)]
    );
}

#[test]
fn orientation_parse_and_render() {
    assert_eq!(Orientation::parse("+"), Ok(Orientation::Forward));
    assert_eq!(Orientation::parse("-"), Ok(Orientation::Backward));
    assert_eq!(Orientation::parse(""), Err(GfaError::InvalidOrientation));
    assert_eq!(Orientation::parse("++"), Err(GfaError::InvalidOrientation));
    assert_eq!(Orientation::parse("x"), Err(GfaError::InvalidOrientation));
    assert_eq!(Orientation::Forward.render(), "+");
    assert_eq!(Orientation::Backward.render(), "-");
    let back = Orientation::parse(&Orientation::Backward.render());
    assert_eq!(back, Ok(Orientation::Backward));
}

#[test]
fn orientation_default_and_is_reverse() {
    assert_eq!(Orientation::default(), Orientation::Forward);
    assert!(!Orientation::Forward.is_reverse());
    assert!(Orientation::Backward.is_reverse());
}

#[test]
fn segment_constructor_defaults_optionals() {
    let s = Segment::new("seg1", "ACGT");
    assert_eq!(s.name, "seg1");
    assert_eq!(s.sequence, "ACGT");
    assert_eq!(s.segment_length, None);
    assert_eq!(s.read_count, None);
    assert_eq!(s.fragment_count, None);
    assert_eq!(s.kmer_count, None);
    assert_eq!(s.sha256, None);
    assert_eq!(s.uri, None);
    assert!(s.optional_fields.is_empty());
}

#[test]
fn link_constructor_defaults_optionals() {
    let l = Link::new("a", Orientation::Forward, "b", Orientation::Backward, "4M");
    assert_eq!(l.from_segment, "a");
    assert_eq!(l.from_orient, Orientation::Forward);
    assert_eq!(l.to_segment, "b");
    assert_eq!(l.to_orient, Orientation::Backward);
    assert_eq!(l.overlap, "4M");
    assert_eq!(l.map_quality, None);
    assert_eq!(l.num_mismatches, None);
    assert_eq!(l.edge_id, None);
    assert!(l.optional_fields.is_empty());
}

#[test]
fn collection_retains_only_selected_kinds() {
    let mut config = GFAParsingConfig::none();
    config.segments = true;
    let mut collection = GFA::new();
    collection.insert_line(
        Line::Segment(Segment::new("1", "ACGT")),
        &config,
    );
    collection.insert_line(
        Line::Link(Link::new(
            "1",
            Orientation::Forward,
            "2",
            Orientation::Forward,
            "0M",
        )),
        &config,
    );
    collection.insert_line(
        Line::Header(Header {
            version: Some(String::from("1.0")),
        }),
        &config,
    );
    collection.insert_line(
        Line::Segment(Segment::new("2", "TTGA")),
        &config,
    );
    assert_eq!(collection.segments.len(), 2);
    assert_eq!(collection.links.len(), 0);
    assert_eq!(collection.version, Some(String::from("1.0")));
    assert_eq!(collection.segments[0].name, "1");
    assert_eq!(collection.segments[1].name, "2");
}

#[test]
fn collection_last_header_wins() {
    let config = GFAParsingConfig::all();
    let mut collection = GFA::new();
    collection.insert_line(
        Line::Header(Header {
            version: Some(String::from("1.0")),
        }),
        &config,
    );
    collection.insert_line(Line::Comment, &config);
    collection.insert_line(
        Line::Header(Header {
            version: Some(String::from("2.0")),
        }),
        &config,
    );
    assert_eq!(collection.version, Some(String::from("2.0")));
    assert_eq!(collection.segments.len(), 0);
}

#[test]
fn empty_collection() {
    let collection = GFA::new();
    assert_eq!(collection.version, None);
    assert!(collection.segments.is_empty());
    assert!(collection.links.is_empty());
    assert!(collection.containments.is_empty());
    assert!(collection.paths.is_empty());
}

#[test]
fn collection_retains_containments_and_paths() {
    let config = GFAParsingConfig::all();
    let mut collection = GFA::new();
    let mut containment = Containment::default();
    containment.container_name = String::from("1");
    containment.contained_name = String::from("2");
    containment.contained_orient = Orientation::Backward;
    containment.pos = 110;
    containment.overlap = String::from("100M");
    collection.insert_line(Line::Containment(containment.clone()), &config);
    let path = Path::new("p", vec!["1+", "2-"], vec![String::from("4M")]).unwrap();
    collection.insert_line(Line::Path(path.clone()), &config);
    assert_eq!(collection.containments, vec![containment]);
    assert_eq!(collection.paths, vec![path]);
    assert_eq!(collection.version, None);
}

#[test]
fn config_selectors() {
    let none = GFAParsingConfig::none();
    assert!(!none.segments && !none.links && !none.containments && !none.paths);
    let all = GFAParsingConfig::all();
    assert!(all.segments && all.links && all.containments && all.paths);
}
