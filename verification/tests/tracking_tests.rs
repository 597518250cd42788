use dotmanager::report::{Error, Missing};
use dotmanager::tracking::{
    add, add_to_tracking_list, existence_probe, file_to_vec, git_add_all, record_text, remove,
    remove_from_tracking_list, Change,
};

fn list(paths: &[&str]) -> Vec<String> {
    paths.iter().map(|p| p.to_string()).collect()
}

#[test]
fn file_to_vec_reads_one_path_per_line() {
    assert_eq!(file_to_vec("/h/u/.vimrc\n/h/u/.config\n"), list(&["/h/u/.vimrc", "/h/u/.config"]));
    assert_eq!(file_to_vec("  /a \n/b\n\n"), list(&["/a ", "/b"]));
}

#[test]
fn file_to_vec_of_an_empty_record_is_no_path() {
    assert_eq!(file_to_vec(""), list(&[]));
    assert_eq!(file_to_vec(" \n "), list(&[]));
    assert_eq!(file_to_vec("\n"), list(&[]));
}

#[test]
fn record_text_joins_with_line_ends() {
    assert_eq!(record_text(&list(&["/a", "/b", "/c"])), "/a\n/b\n/c");
    assert_eq!(record_text(&list(&["/a"])), "/a");
    assert_eq!(record_text(&list(&[])), "");
}

#[test]
fn existence_probe_drops_trailing_separators() {
    assert_eq!(existence_probe(&"/h/u/dir/".to_string()), "/h/u/dir");
    assert_eq!(existence_probe(&"/h/u/dir//".to_string()), "/h/u/dir");
    assert_eq!(existence_probe(&"/h/u/file".to_string()), "/h/u/file");
    assert_eq!(existence_probe(&"/".to_string()), "");
}

#[test]
fn add_appends_a_path_that_overlaps_nothing() {
    let mut paths = list(&["/h/u/.vimrc", "/h/u/.config/nvim"]);
    assert_eq!(add_to_tracking_list(&mut paths, &"/h/u/.zshrc".to_string()), Ok(()));
    assert_eq!(paths, list(&["/h/u/.vimrc", "/h/u/.config/nvim", "/h/u/.zshrc"]));
}

#[test]
fn add_refuses_a_path_that_is_tracked() {
    let mut paths = list(&["/h/u/.vimrc", "/h/u/.config/nvim"]);
    assert_eq!(
        add_to_tracking_list(&mut paths, &"/h/u/.config/nvim".to_string()),
        Err(Error::AlreadyTracked)
    );
    assert_eq!(paths, list(&["/h/u/.vimrc", "/h/u/.config/nvim"]));
}

#[test]
fn add_refuses_a_descendant_and_names_the_ancestor() {
    let mut paths = list(&["/h/u/.vimrc", "/h/u/.config"]);
    assert_eq!(
        add_to_tracking_list(&mut paths, &"/h/u/.config/nvim/init.lua".to_string()),
        Err(Error::Conflict { ancestor: "/h/u/.config".to_string() })
    );
    assert_eq!(paths, list(&["/h/u/.vimrc", "/h/u/.config"]));
}

#[test]
fn add_names_the_first_ancestor_in_the_list() {
    let mut paths = list(&["/h/u", "/h/u/.config"]);
    assert_eq!(
        add_to_tracking_list(&mut paths, &"/h/u/.config".to_string()),
        Err(Error::Conflict { ancestor: "/h/u".to_string() })
    );
}

#[test]
fn add_of_an_ancestor_absorbs_its_descendants() {
    let mut paths = list(&["/h/u/.config/nvim", "/h/u/.vimrc", "/h/u/.config/kitty"]);
    assert_eq!(add_to_tracking_list(&mut paths, &"/h/u/.config".to_string()), Ok(()));
    assert_eq!(paths, list(&["/h/u/.vimrc", "/h/u/.config"]));
}

#[test]
fn add_to_the_list_of_an_empty_record_succeeds() {
    let mut paths = file_to_vec("");
    assert_eq!(add_to_tracking_list(&mut paths, &"/h/a".to_string()), Ok(()));
    assert_eq!(paths, list(&["/h/a"]));
    assert_eq!(record_text(&paths), "/h/a");
    assert_eq!(
        add("", &"/h/a".to_string(), true),
        Ok(Change { record: "/h/a".to_string(), command: "add /h/a".to_string() })
    );
}

#[test]
fn add_stores_a_path_without_its_trailing_separators() {
    assert_eq!(
        add("/h/x", &"/h/a/".to_string(), true),
        Ok(Change { record: "/h/x\n/h/a".to_string(), command: "add /h/a".to_string() })
    );
    let mut paths = list(&["/h/x"]);
    assert_eq!(add_to_tracking_list(&mut paths, &"/h/b///".to_string()), Ok(()));
    assert_eq!(paths, list(&["/h/x", "/h/b"]));
}

#[test]
fn add_of_a_tracked_path_with_a_trailing_separator_is_refused_as_tracked() {
    let mut paths = list(&["/h/x", "/h/a"]);
    assert_eq!(
        add_to_tracking_list(&mut paths, &"/h/a/".to_string()),
        Err(Error::AlreadyTracked)
    );
    assert_eq!(add("/h/x\n/h/a", &"/h/a//".to_string(), true), Err(Error::AlreadyTracked));
    assert_eq!(
        add("/h/x\n/h/a", &"/h/a/b/".to_string(), true),
        Err(Error::Conflict { ancestor: "/h/a".to_string() })
    );
}

#[test]
fn add_of_an_ancestor_with_a_trailing_separator_absorbs_its_descendants() {
    assert_eq!(
        add("/h/.config/nvim\n/h/.vimrc", &"/h/.config/".to_string(), true),
        Ok(Change {
            record: "/h/.vimrc\n/h/.config".to_string(),
            command: "add /h/.config".to_string(),
        })
    );
}

#[test]
fn add_to_a_list_without_entries_succeeds() {
    let mut paths: Vec<String> = Vec::new();
    assert_eq!(add_to_tracking_list(&mut paths, &"/h/u/.vimrc".to_string()), Ok(()));
    assert_eq!(paths, list(&["/h/u/.vimrc"]));
}

#[test]
fn remove_takes_out_an_exact_entry() {
    let mut paths = list(&["/a", "/b", "/c"]);
    assert_eq!(remove_from_tracking_list(&mut paths, &"/b".to_string()), Ok(()));
    assert_eq!(paths, list(&["/a", "/c"]));
}

#[test]
fn remove_refuses_what_is_no_entry() {
    let mut paths = list(&["/h/u/.config/nvim", "/h/u/.vimrc"]);
    for path in ["/h/u/.config", "/h/u/.config/nvim/init.lua", "/h/u/.vimrc/", "/x"] {
        assert_eq!(
            remove_from_tracking_list(&mut paths, &path.to_string()),
            Err(Error::NotFound(Missing::InTrackingList))
        );
        assert_eq!(paths, list(&["/h/u/.config/nvim", "/h/u/.vimrc"]));
    }
}

#[test]
fn remove_takes_out_every_copy() {
    let mut paths = list(&["/a", "/b", "/a"]);
    assert_eq!(remove_from_tracking_list(&mut paths, &"/a".to_string()), Ok(()));
    assert_eq!(paths, list(&["/b"]));
}

#[test]
fn add_gives_the_record_and_the_command() {
    assert_eq!(
        add("/h/u/.vimrc\n/h/u/.config/nvim\n", &"/h/u/.config".to_string(), true),
        Ok(Change {
            record: "/h/u/.vimrc\n/h/u/.config".to_string(),
            command: "add /h/u/.config".to_string(),
        })
    );
}

#[test]
fn add_fails_where_nothing_exists() {
    assert_eq!(
        add("/h/u/.vimrc", &"/h/u/nothing".to_string(), false),
        Err(Error::NotFound(Missing::OnDisk))
    );
    assert_eq!(
        add("/h/u/.vimrc", &"/h/u/.vimrc".to_string(), false),
        Err(Error::NotFound(Missing::OnDisk))
    );
}

#[test]
fn add_passes_the_errors_of_the_list_on() {
    assert_eq!(add("/a\n/b", &"/b".to_string(), true), Err(Error::AlreadyTracked));
    assert_eq!(
        add("/a\n/b", &"/b/c".to_string(), true),
        Err(Error::Conflict { ancestor: "/b".to_string() })
    );
}

#[test]
fn remove_gives_the_record_and_the_command() {
    assert_eq!(
        remove("/a\n/b\n/c\n", &"/b".to_string()),
        Ok(Change { record: "/a\n/c".to_string(), command: "rm -rf /b".to_string() })
    );
}

#[test]
fn remove_fails_where_the_path_is_no_entry_and_there_only() {
    assert_eq!(
        remove("/a\n/b", &"/c".to_string()),
        Err(Error::NotFound(Missing::InTrackingList))
    );
    assert_eq!(
        remove("/a\n/b", &"/b/".to_string()),
        Err(Error::NotFound(Missing::InTrackingList))
    );
    assert_eq!(remove("", &"/a".to_string()), Err(Error::NotFound(Missing::InTrackingList)));
    assert_eq!(remove("", &"".to_string()), Err(Error::NotFound(Missing::InTrackingList)));
}

#[test]
fn load_after_adds_and_removes_gives_the_list() {
    let mut record = "/h/u/.vimrc".to_string();
    record = add(&record, &"/h/u/.config/nvim".to_string(), true).unwrap().record;
    record = add(&record, &"/h/u/.zshrc".to_string(), true).unwrap().record;
    record = add(&record, &"/h/u/.config/kitty".to_string(), true).unwrap().record;
    assert_eq!(
        file_to_vec(&record),
        list(&["/h/u/.vimrc", "/h/u/.config/nvim", "/h/u/.zshrc", "/h/u/.config/kitty"])
    );
    record = remove(&record, &"/h/u/.zshrc".to_string()).unwrap().record;
    assert_eq!(
        file_to_vec(&record),
        list(&["/h/u/.vimrc", "/h/u/.config/nvim", "/h/u/.config/kitty"])
    );
    record = add(&record, &"/h/u/.config".to_string(), true).unwrap().record;
    assert_eq!(file_to_vec(&record), list(&["/h/u/.vimrc", "/h/u/.config"]));
    assert_eq!(record, "/h/u/.vimrc\n/h/u/.config");
}

#[test]
fn load_after_the_last_path_is_removed_gives_no_path() {
    let change = remove("/h/a", &"/h/a".to_string()).unwrap();
    assert_eq!(change.record, "");
    assert_eq!(file_to_vec(&change.record), list(&[]));
    assert_eq!(
        add(&change.record, &"/h/b".to_string(), true),
        Ok(Change { record: "/h/b".to_string(), command: "add /h/b".to_string() })
    );
}

#[test]
fn git_add_all_drops_what_is_gone() {
    let checked = vec![
        ("/a".to_string(), true),
        ("/b".to_string(), false),
        ("/c".to_string(), true),
    ];
    let staging = git_add_all(&checked);
    assert_eq!(staging.paths, list(&["/a", "/c"]));
    assert_eq!(staging.record, Some("/a\n/c".to_string()));
    assert_eq!(staging.commands, list(&["add /a", "add /c"]));
}

#[test]
fn git_add_all_leaves_the_record_where_nothing_is_gone() {
    let checked = vec![("/a".to_string(), true), ("/b".to_string(), true)];
    let staging = git_add_all(&checked);
    assert_eq!(staging.paths, list(&["/a", "/b"]));
    assert_eq!(staging.record, None);
    assert_eq!(staging.commands, list(&["add /a", "add /b"]));
}

#[test]
fn git_add_all_of_nothing_is_nothing() {
    let staging = git_add_all(&Vec::new());
    assert_eq!(staging.paths, Vec::<String>::new());
    assert_eq!(staging.record, None);
    assert_eq!(staging.commands, Vec::<String>::new());
}
