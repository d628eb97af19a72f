use ochami_rs::text::{split_and_trim, trim};
use ochami_rs::nid::{
    accept_patterns, nid_long, nid_patterns, nid_query, node_xnames, short_nid_list,
    short_nid_of, xnames_matching, xnames_of, NidError, NodeSummary,
};

fn ids(list: &[&str]) -> Vec<String> {
    list.iter().map(|id| id.to_string()).collect()
}

fn node(id: Option<&str>, nid: Option<usize>) -> NodeSummary {
    NodeSummary { id: id.map(|id| id.to_string()), nid }
}

#[test]
fn trim_agrees_with_str_trim() {
    let samples = [
        "",
        " ",
        "   \t\n",
        "a",
        " a",
        "a ",
        "  a b  ",
        "\u{a0}x\u{3000}",
        "\u{2000}\u{200a}nid\u{2028}\u{2029}",
        "\u{200b}x\u{200b}",
        "\u{85}x\u{1680}\u{202f}\u{205f}",
        "\u{b}\u{c}\rx",
        "é \u{1F600} ",
    ];
    for sample in samples {
        assert_eq!(trim(sample), sample.trim(), "{sample:?}");
    }
}

#[test]
fn trim_knows_every_white_space_character() {
    for code in 0..=0x3100u32 {
        if let Some(c) = char::from_u32(code) {
            let text = format!("{c}x{c}");
            assert_eq!(trim(&text), text.trim(), "{code:#x}");
        }
    }
}

#[test]
fn split_agrees_with_str_split() {
    let samples = [
        "",
        ",",
        ",,",
        "a",
        "a,b",
        " a , b ,c ",
        "nid00000.*, nid0001[0-9] ,",
        ",x",
        "é, ü ,\u{a0}",
        "  ",
    ];
    for sample in samples {
        let expected: Vec<String> = sample.split(",").map(|p| p.trim().to_string()).collect();
        assert_eq!(split_and_trim(sample), expected, "{sample:?}");
    }
}

#[test]
fn nid_long_pads_to_six_digits() {
    assert_eq!(nid_long(0), "nid000000");
    assert_eq!(nid_long(1), "nid000001");
    assert_eq!(nid_long(42), "nid000042");
    assert_eq!(nid_long(999_999), "nid999999");
    assert_eq!(nid_long(1_000_000), "nid1000000");
    assert_eq!(nid_long(1_234_567_890), "nid1234567890");
    for nid in [7usize, 10, 99, 100, 12_345, 100_000, 654_321, usize::MAX] {
        assert_eq!(nid_long(nid), format!("nid{:06}", nid));
    }
}

#[test]
fn patterns_are_split_trimmed_and_checked() {
    let patterns = nid_patterns(" nid00000.* ,nid0001[0-9]").expect("both are patterns");
    assert_eq!(patterns, ids(&["nid00000.*", "nid0001[0-9]"]));
    assert_eq!(nid_patterns("").expect("the empty pattern"), ids(&[""]));
}

#[test]
fn first_bad_pattern_is_the_error() {
    match nid_patterns("nid0.*, nid(, nid[") {
        Err(NidError::Pattern { message }) => {
            assert_eq!(message, regex::Regex::new("nid(").unwrap_err().to_string());
            assert_ne!(message, "nid(");
        }
        other => panic!("{other:?}"),
    }
}

#[test]
fn accept_patterns_takes_the_first_refusal() {
    let patterns = ids(&["a", "b", "c"]);
    match accept_patterns(patterns.clone(), vec![None, None, None]) {
        Ok(accepted) => assert_eq!(accepted, patterns),
        other => panic!("{other:?}"),
    }
    let refusals = vec![None, Some("bad b".to_string()), Some("bad c".to_string())];
    match accept_patterns(patterns.clone(), refusals) {
        Err(NidError::Pattern { message }) => assert_eq!(message, "bad b"),
        other => panic!("{other:?}"),
    }
    assert!(accept_patterns(patterns, Vec::new()).is_ok());
}

#[test]
fn node_id_comes_once_for_each_hit() {
    let x1 = node(Some("x1"), Some(1));
    assert_eq!(node_xnames(&x1, &vec![false, true, true]).unwrap(), ids(&["x1", "x1"]));
    assert_eq!(node_xnames(&x1, &vec![false, false]).unwrap(), ids(&[]));
    assert_eq!(node_xnames(&x1, &vec![]).unwrap(), ids(&[]));
}

#[test]
fn node_without_number_or_id_is_an_error() {
    let no_nid = node(Some("x1"), None);
    assert!(matches!(node_xnames(&no_nid, &vec![false]), Err(NidError::MissingNid)));
    assert!(matches!(node_xnames(&no_nid, &vec![]), Err(NidError::MissingNid)));
    let no_id = node(None, Some(3));
    assert!(matches!(node_xnames(&no_id, &vec![false, true]), Err(NidError::MissingXname)));
    assert_eq!(node_xnames(&no_id, &vec![false, false]).unwrap(), ids(&[]));
}

#[test]
fn nodes_are_found_by_pattern() {
    let nodes = vec![
        node(Some("x1000c0s0b0n0"), Some(1)),
        node(Some("x1000c0s0b0n1"), Some(2)),
        node(Some("x1000c0s1b0n0"), Some(10)),
        node(Some("x1000c0s1b0n1"), Some(11)),
        node(None, Some(500)),
    ];
    let found = xnames_matching(&ids(&["nid00000[12]", "nid00001.*"]), &nodes).unwrap();
    assert_eq!(
        found,
        ids(&["x1000c0s0b0n0", "x1000c0s0b0n1", "x1000c0s1b0n0", "x1000c0s1b0n1"])
    );
    let twice = xnames_matching(&ids(&["nid000001", "nid.*1$"]), &nodes).unwrap();
    assert_eq!(twice, ids(&["x1000c0s0b0n0", "x1000c0s0b0n0", "x1000c0s1b0n1"]));
    assert_eq!(xnames_matching(&ids(&["^000001$"]), &nodes).unwrap(), ids(&[]));
    assert_eq!(xnames_matching(&ids(&[]), &nodes).unwrap(), ids(&[]));
}

#[test]
fn pattern_is_matched_and_not_compared() {
    let nodes = vec![node(Some("x1"), Some(1))];
    assert_eq!(xnames_matching(&ids(&["nid0+1"]), &nodes).unwrap(), ids(&["x1"]));
    assert_eq!(xnames_matching(&ids(&["nid000001"]), &nodes).unwrap(), ids(&["x1"]));
    assert_eq!(xnames_matching(&ids(&["nid000002"]), &nodes).unwrap(), ids(&[]));
}

#[test]
fn refused_pattern_matches_nothing() {
    let nodes = vec![node(Some("x1"), Some(1))];
    assert_eq!(xnames_matching(&ids(&["nid("]), &nodes).unwrap(), ids(&[]));
}

#[test]
fn first_node_in_error_is_the_error_of_the_search() {
    let nodes = vec![node(Some("x1"), Some(1)), node(None, Some(2)), node(Some("x3"), None)];
    assert!(matches!(
        xnames_matching(&ids(&["nid000002"]), &nodes),
        Err(NidError::MissingXname)
    ));
    assert!(matches!(
        xnames_matching(&ids(&["nid000001"]), &nodes),
        Err(NidError::MissingNid)
    ));
    let nodes = vec![node(Some("x3"), None), node(None, Some(2))];
    assert!(matches!(xnames_matching(&ids(&["nid000002"]), &nodes), Err(NidError::MissingNid)));
}

#[test]
fn short_nid_drops_the_word_and_the_zeros() {
    assert_eq!(short_nid_of("nid000012"), Some("12"));
    assert_eq!(short_nid_of("nid12"), Some("12"));
    assert_eq!(short_nid_of("nid001200"), Some("1200"));
    assert_eq!(short_nid_of("nid000000"), Some(""));
    assert_eq!(short_nid_of("nid"), Some(""));
    assert_eq!(short_nid_of("nid0a0"), Some("a0"));
    assert_eq!(short_nid_of("ni"), None);
    assert_eq!(short_nid_of(""), None);
    assert_eq!(short_nid_of("x1000"), None);
    assert_eq!(short_nid_of("Nid0001"), None);
    assert_eq!(short_nid_of("node0001"), None);
    for host in ["nid000012", "nid", "nid0", "nidé00", "nid00é"] {
        let expected = host.strip_prefix("nid").map(|rest| rest.trim_start_matches("0"));
        assert_eq!(short_nid_of(host), expected);
    }
}

#[test]
fn short_nid_list_joins_with_commas() {
    assert_eq!(short_nid_list(&ids(&["nid000001", "nid000020", "nid300"])).unwrap(), "1,20,300");
    assert_eq!(short_nid_list(&ids(&["nid000001"])).unwrap(), "1");
    assert_eq!(short_nid_list(&ids(&[])).unwrap(), "");
}

#[test]
fn host_without_the_word_nid_is_an_error() {
    match short_nid_list(&ids(&["nid000001", "x1000", "y2"])) {
        Err(NidError::MissingPrefix { nid }) => assert_eq!(nid, "x1000"),
        other => panic!("{other:?}"),
    }
}

#[test]
fn host_list_is_expanded() {
    assert_eq!(nid_query("nid0000[01-03]").unwrap(), "1,2,3");
    assert_eq!(nid_query("nid000010,nid000012").unwrap(), "10,12");
    assert_eq!(nid_query("nid00[08-11]").unwrap(), "8,9,10,11");
    assert_eq!(nid_query("nid000001").unwrap(), "1");
}

#[test]
fn host_list_that_cannot_be_read_is_an_error() {
    match nid_query("nid0000[01-") {
        Err(NidError::Hostlist { message }) => {
            let expected = hostlist_parser::parse("nid0000[01-").unwrap_err().to_string();
            assert_eq!(message, expected);
        }
        other => panic!("{other:?}"),
    }
    match nid_query("x[1-2]") {
        Err(NidError::MissingPrefix { nid }) => assert_eq!(nid, "x1"),
        other => panic!("{other:?}"),
    }
}

#[test]
fn ids_of_answer_come_in_order() {
    let nodes = vec![node(Some("x2"), Some(2)), node(Some("x1"), None)];
    assert_eq!(xnames_of(&nodes).unwrap(), ids(&["x2", "x1"]));
    assert_eq!(xnames_of(&Vec::new()).unwrap(), ids(&[]));
    let nodes = vec![node(Some("x2"), Some(2)), node(None, Some(1))];
    assert!(matches!(xnames_of(&nodes), Err(NidError::MissingXname)));
}

#[test]
fn nid_errors_are_reported_in_words() {
    let error = NidError::Pattern { message: "bad".to_string() };
    assert_eq!(error.message(), "bad");
    let error = NidError::Hostlist { message: "why\n".to_string() };
    assert_eq!(
        error.message(),
        "Could not parse list of nodes as a hostlist. Reason:\nwhy\nExit"
    );
    let error = NidError::MissingPrefix { nid: "x1".to_string() };
    assert_eq!(error.message(), "Nid 'x1' not valid, 'nid' prefix missing");
    assert_eq!(NidError::MissingNid.message(), "No NID found");
    assert_eq!(NidError::MissingXname.message(), "No XName found");
}
