use anidb::naming::{clean, library_names, padded_episode_number};
use anidb::File;

fn file(series: &str, ep: &str, total: u32, name: &str) -> File {
    File {
        fid: 1,
        aid: 2,
        eid: 3,
        gid: 4,
        filename: "x.mkv".to_string(),
        total_eps: total,
        highest_ep: total,
        year: "2017".to_string(),
        typ: "TV Series".to_string(),
        series_romaji: series.to_string(),
        series_english: String::new(),
        series_other: String::new(),
        series_short: String::new(),
        ep_number: ep.to_string(),
        ep_name: name.to_string(),
        ep_romaji: String::new(),
        group_name: String::new(),
        group_short: String::new(),
    }
}

#[test]
fn clean_replaces_space_and_slash() {
    assert_eq!(clean("a b/c d"), "a_b|c_d");
    assert_eq!(clean(""), "");
}

#[test]
fn episode_padding() {
    assert_eq!(padded_episode_number("1", 25), "01");
    assert_eq!(padded_episode_number("1", 100), "001");
    assert_eq!(padded_episode_number("123", 25), "123");
    assert_eq!(padded_episode_number("S1", 25), "S1");
    assert_eq!(padded_episode_number("7", 5), "7");
    assert_eq!(padded_episode_number("+5", 250), "+5");
}

#[test]
fn names_for_library() {
    let f = file("Little Witch Academia (2017)", "1", 25, "A New Beginning");
    let (dir, name) = library_names(&f, "mkv").unwrap();
    assert_eq!(dir, "Little_Witch_Academia_(2017)");
    assert_eq!(name, "Little_Witch_Academia_(2017)_-_01_A_New_Beginning.mkv");
    let f = file("AC/DC", "S1", 3, "Live/Loud");
    let (dir, name) = library_names(&f, "avi").unwrap();
    assert_eq!(dir, "AC|DC");
    assert_eq!(name, "AC|DC_-_S1_Live|Loud.avi");
}

#[test]
fn names_need_series_and_episode_name() {
    assert!(library_names(&file("", "1", 2, "x"), "mkv").is_none());
    assert!(library_names(&file("S", "1", 2, ""), "mkv").is_none());
}
