use fortune::error::FortuneError;
use fortune::fortune::{new, split_weight, weighted_index, Cookie};
use fortune::strfile;

fn make_dat(numstr: u32, flags: u32, offsets: &[u32]) -> Vec<u8> {
    let mut v = Vec::new();
    v.extend_from_slice(&2u32.to_be_bytes());
    v.extend_from_slice(&numstr.to_be_bytes());
    v.extend_from_slice(&0u32.to_be_bytes());
    v.extend_from_slice(&0u32.to_be_bytes());
    v.extend_from_slice(&flags.to_be_bytes());
    v.push(b'%');
    v.push(0);
    v.push(0);
    v.push(0);
    for o in offsets {
        v.extend_from_slice(&o.to_be_bytes());
    }
    v
}

fn cookie(name: &str, weight: Option<u32>, dat: Vec<u8>, text: &[u8]) -> Cookie {
    Cookie {
        name: name.to_string(),
        path: format!("/cookies/{}", name),
        weight,
        dat,
        text: text.to_vec(),
    }
}

// Three records of byte lengths 5, 15 and 8.
fn three_record_source(name: &str, weight: Option<u32>) -> Cookie {
    let text: &[u8] = b"abcd\n%\naaaaaaaaaaaaaa\n%\nbcdefgh\n%\n";
    let dat = make_dat(3, 0, &[0, 7, 24, 34]);
    cookie(name, weight, dat, text)
}

#[test]
fn length_filters_exclude_each_other_by_construction() {
    let f = new().short_only().long_only();
    assert!(f.long_only && !f.short_only);
    let f = f.long_only().short_only();
    assert!(f.short_only && !f.long_only);
}

#[test]
fn builders_set_their_flags() {
    let f = new();
    assert!(!f.show_file && !f.all_forts && !f.offend);
    assert_eq!(f.slen, 160);
    let f = f.show_file().all().short_len(42);
    assert!(f.show_file && f.all_forts && !f.offend);
    assert_eq!(f.slen, 42);
    let f = f.offensive();
    assert!(f.offend && !f.all_forts);
}

#[test]
fn source_reports_its_info_and_path() {
    let c = three_record_source("a", None);
    let jar = strfile::new()
        .load("a", "/cookies/a", c.text, &c.dat, None)
        .unwrap();
    let info = jar.info();
    assert_eq!(info.0, 2);
    assert_eq!(info.3, 0);
    assert_eq!(jar.filepath(), "/cookies/a");
    assert_eq!(jar.name, "a");
    assert_eq!(jar.weight, 3); // starts as the record count
}

#[test]
fn explicit_weight_is_kept_at_load() {
    let c = three_record_source("a", Some(25));
    let jar = strfile::new()
        .load("a", "/cookies/a", c.text, &c.dat, Some(25))
        .unwrap();
    assert_eq!(jar.weight, 25);
    assert_eq!(jar.explicit, Some(25));
}

#[test]
fn record_lengths_subtract_the_separator() {
    let c = three_record_source("a", None);
    let jar = strfile::new()
        .load("a", "/cookies/a", c.text, &c.dat, None)
        .unwrap();
    assert_eq!(jar.num_str(), 3);
    assert_eq!(jar.record_length(0), Ok(5));
    assert_eq!(jar.record_length(1), Ok(15));
    assert_eq!(jar.record_length(2), Ok(8));
    assert_eq!(jar.record_length(3), Err(FortuneError::Bounds));
}

#[test]
fn exact_extraction_yields_record_length_bytes() {
    let c = three_record_source("a", None);
    let jar = strfile::new()
        .load("a", "/cookies/a", c.text, &c.dat, None)
        .unwrap();
    for i in 0..3 {
        let text = jar.record_text_exact(i).unwrap();
        assert_eq!(text.len() as u32, jar.record_length(i).unwrap());
    }
    assert_eq!(jar.record_text_exact(0).unwrap(), b"abcd\n".to_vec());
}

#[test]
fn length_filter_is_a_partition() {
    let c = three_record_source("a", None);
    let jar = strfile::new()
        .load("a", "/cookies/a", c.text, &c.dat, None)
        .unwrap();
    let long = jar.matching_indices(10, true, false);
    let short = jar.matching_indices(10, false, true);
    let all = jar.matching_indices(10, false, false);
    assert_eq!(long, vec![1]);
    assert_eq!(short, vec![0, 2]);
    assert_eq!(all, vec![0, 1, 2]);
    for i in 0..3u32 {
        assert!(long.contains(&i) != short.contains(&i));
        assert!(all.contains(&i));
    }
}

#[test]
fn long_only_retrieval_returns_the_long_record() {
    let mut f = new();
    f.load(vec![three_record_source("a", None)]).unwrap();
    let f = f.long_only().short_len(10);
    for _ in 0..25 {
        let p = f.print().unwrap();
        assert_eq!(p.source, "a");
        assert_eq!(p.text, b"aaaaaaaaaaaaaa\n".to_vec());
    }
}

#[test]
fn short_only_retrieval_avoids_the_long_record() {
    let mut f = new();
    f.load(vec![three_record_source("a", None)]).unwrap();
    let f = f.short_only().short_len(10);
    for _ in 0..25 {
        let p = f.print().unwrap();
        assert!(p.text == b"abcd\n".to_vec() || p.text == b"bcdefgh\n".to_vec());
    }
}

#[test]
fn no_record_matching_the_filter_fails_fast() {
    let mut f = new();
    f.load(vec![three_record_source("a", None)]).unwrap();
    let f = f.long_only().short_len(100);
    assert_eq!(f.print().err(), Some(FortuneError::NoMatch));
}

#[test]
fn printing_without_sources_reports_not_found() {
    let f = new();
    assert_eq!(f.print().err(), Some(FortuneError::NotFound));
}

#[test]
fn loading_nothing_reports_not_found() {
    let mut f = new();
    assert_eq!(f.load(vec![]).err(), Some(FortuneError::NotFound));
}

#[test]
fn loading_a_malformed_index_reports_format() {
    let mut f = new();
    let bad = cookie("x", None, vec![0u8; 10], b"");
    assert_eq!(f.load(vec![bad]).err(), Some(FortuneError::Format));
}

#[test]
fn rotated_source_is_decoded_on_extraction() {
    let text: &[u8] = b"Uryyb\n%\n";
    let dat = make_dat(1, 0x4, &[0, 8]);
    let mut f = new();
    f.load(vec![cookie("r", None, dat, text)]).unwrap();
    let p = f.print().unwrap();
    assert_eq!(p.text, b"Hello\n".to_vec());
}

#[test]
fn sources_are_kept_sorted_by_name() {
    let mut f = new();
    f.load(vec![
        three_record_source("zeta", None),
        three_record_source("alpha", None),
    ])
    .unwrap();
    f.load(vec![three_record_source("midway", None)]).unwrap();
    let names: Vec<&str> = f.jars.iter().map(|j| j.name.as_str()).collect();
    assert_eq!(names, vec!["alpha", "midway", "zeta"]);
}

#[test]
fn normalization_splits_the_remaining_mass_by_record_count() {
    // One source with an explicit weight of 30, one unweighted source with
    // 30 records: the unweighted source takes the remaining 70 percent.
    let explicit = cookie("a", Some(30), make_dat(10, 0, &[0; 11]), b"");
    let unweighted = cookie("b", None, make_dat(30, 0, &[0; 31]), b"");
    let mut f = new();
    f.load(vec![explicit, unweighted]).unwrap();
    let f = f.normalize_weights().unwrap();
    let total = f.total_weight();
    assert_eq!(total, 3000); // 100 times the scale of 30
    assert_eq!(f.jars[0].weight * 100 / total, 30);
    assert_eq!(f.jars[1].weight * 100 / total, 70);
}

#[test]
fn normalization_rejects_percentages_over_100() {
    let a = cookie("a", Some(60), make_dat(1, 0, &[0, 0]), b"");
    let b = cookie("b", Some(60), make_dat(1, 0, &[0, 0]), b"");
    let mut f = new();
    f.load(vec![a, b]).unwrap();
    assert_eq!(
        f.normalize_weights().err(),
        Some(FortuneError::Weight)
    );
}

#[test]
fn equal_size_gives_every_source_weight_one() {
    let mut f = new();
    f.load(vec![
        cookie("a", None, make_dat(10, 0, &[0; 11]), b""),
        cookie("b", None, make_dat(30, 0, &[0; 31]), b""),
    ])
    .unwrap();
    let f = f.equal_size().normalize_weights().unwrap();
    assert_eq!(f.jars[0].weight, 1);
    assert_eq!(f.jars[1].weight, 1);
}

#[test]
fn equal_size_picks_every_source() {
    let one = |name: &str| {
        let text: &[u8] = b"abcd\n%\n";
        cookie(name, None, make_dat(1, 0, &[0, 7]), text)
    };
    let mut f = new();
    f.load(vec![one("tiny"), one("larger")]).unwrap();
    let f = f.equal_size();
    let mut seen_tiny = false;
    let mut seen_larger = false;
    for _ in 0..100 {
        let p = f.print().unwrap();
        match p.source.as_str() {
            "tiny" => seen_tiny = true,
            "larger" => seen_larger = true,
            other => panic!("unknown source {}", other),
        }
    }
    assert!(seen_tiny && seen_larger);
}

#[test]
fn weighted_index_maps_each_draw_to_its_span() {
    let mut f = new();
    f.load(vec![
        cookie("a", Some(1), make_dat(1, 0, &[0, 0]), b""),
        cookie("b", Some(3), make_dat(1, 0, &[0, 0]), b""),
    ])
    .unwrap();
    // Weights are 1 and 3: draw 0 lands on source a, draws 1 to 3 on b.
    assert_eq!(weighted_index(&f.jars, 0), 0);
    assert_eq!(weighted_index(&f.jars, 1), 1);
    assert_eq!(weighted_index(&f.jars, 3), 1);
}

#[test]
fn search_returns_matches_in_index_order_with_source_names() {
    let text: &[u8] = b"a cat sat\n%\nno match\n%\ncategory\n%\n";
    let dat = make_dat(3, 0, &[0, 12, 23, 34]);
    let mut f = new();
    f.load(vec![cookie("s", None, dat, text)]).unwrap();
    let hits = f.search("cat", false).unwrap();
    assert_eq!(hits.len(), 2);
    assert_eq!(hits[0].source, "s");
    assert_eq!(hits[0].text, b"a cat sat\n".to_vec());
    assert_eq!(hits[1].source, "s");
    assert_eq!(hits[1].text, b"category\n".to_vec());
}

#[test]
fn search_can_ignore_letter_case() {
    let text: &[u8] = b"a cat sat\n%\nno match\n%\ncategory\n%\n";
    let dat = make_dat(3, 0, &[0, 12, 23, 34]);
    let mut f = new();
    f.load(vec![cookie("s", None, dat, text)]).unwrap();
    assert_eq!(f.search("CAT", false).unwrap().len(), 0);
    assert_eq!(f.search("CAT", true).unwrap().len(), 2);
}

#[test]
fn search_applies_the_length_filter() {
    let mut f = new();
    f.load(vec![three_record_source("a", None)]).unwrap();
    let f = f.long_only().short_len(10);
    // Only the 15-byte record is searched; it is all 'a's.
    assert_eq!(f.search("a", false).unwrap().len(), 1);
    assert_eq!(f.search("bcd", false).unwrap().len(), 0);
}

#[test]
fn search_decodes_rotated_text_before_matching() {
    let text: &[u8] = b"Uryyb\n%\n";
    let dat = make_dat(1, 0x4, &[0, 8]);
    let mut f = new();
    f.load(vec![cookie("r", None, dat, text)]).unwrap();
    assert_eq!(f.search("Hello", false).unwrap().len(), 1);
    assert_eq!(f.search("Uryyb", false).unwrap().len(), 0);
}

#[test]
fn search_is_restartable() {
    let mut f = new();
    f.load(vec![three_record_source("a", None)]).unwrap();
    let first = f.search("a", false).unwrap();
    let second = f.search("a", false).unwrap();
    assert_eq!(first.len(), second.len());
    for (x, y) in first.iter().zip(second.iter()) {
        assert_eq!(x.source, y.source);
        assert_eq!(x.text, y.text);
    }
}

#[test]
fn search_rejects_an_invalid_pattern() {
    let mut f = new();
    f.load(vec![three_record_source("a", None)]).unwrap();
    assert_eq!(f.search("(", false).err(), Some(FortuneError::Format));
}

#[test]
fn search_surfaces_out_of_bounds_offsets() {
    // The index claims a record past the end of the text.
    let text: &[u8] = b"abcd\n%\n";
    let dat = make_dat(1, 0, &[0, 50]);
    let mut f = new();
    f.load(vec![cookie("a", None, dat, text)]).unwrap();
    assert_eq!(f.search("a", false).err(), Some(FortuneError::Bounds));
}

#[test]
fn separator_line_is_trimmed_of_trailing_whitespace() {
    // The separator line carries a vertical tab and a carriage return;
    // trimmed of trailing whitespace it is still exactly the separator.
    let text: &[u8] = b"abc\n%\x0B\r\n";
    let dat = make_dat(1, 0, &[0, 9]);
    let mut f = new();
    f.load(vec![cookie("a", None, dat, text)]).unwrap();
    let p = f.print().unwrap();
    assert_eq!(p.text, b"abc\n".to_vec());
}

#[test]
fn directory_weight_splits_evenly() {
    assert_eq!(split_weight(Some(30), 4), Some(7));
    assert_eq!(split_weight(Some(100), 3), Some(33));
    assert_eq!(split_weight(None, 4), None);
}

#[test]
fn extraction_scans_lines_until_the_separator() {
    // The offset delta disagrees with the line layout; scanning still stops
    // at the separator line.
    let text: &[u8] = b"two\nlines\n%\nrest\n%\n";
    let dat = make_dat(2, 0, &[0, 12, 19]);
    let mut f = new();
    f.load(vec![cookie("a", None, dat, text)]).unwrap();
    let f = f.short_only().short_len(160);
    for _ in 0..10 {
        let p = f.print().unwrap();
        assert!(p.text == b"two\nlines\n".to_vec() || p.text == b"rest\n".to_vec());
    }
}
