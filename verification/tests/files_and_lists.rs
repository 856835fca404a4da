use rust_study::fixmoviename;
use rust_study::node::Node;
use rust_study::rename::{EntryAction, SkipReason};
use rust_study::renamepngname;

#[test]
fn node_push_appends() {
    let mut node1 = Node::new(1);
    node1.push(2);
    node1.push(3);
    let items: Vec<i32> = node1.items().into_iter().copied().collect();
    assert_eq!(items, vec![1, 2, 3]);
    assert_eq!(node1.pointer, 1);
}

#[test]
fn movie_params() {
    let args = vec!["prog".to_string(), "/a".to_string(), "/b".to_string()];
    let info = fixmoviename::get_param(&args, &"/default".to_string());
    assert_eq!(info.from_path, "/a");
    assert_eq!(info.to_path, "/b");
    let args = vec!["prog".to_string(), "/a".to_string()];
    let info = fixmoviename::get_param(&args, &"/default".to_string());
    assert_eq!(info.from_path, "/a");
    assert_eq!(info.to_path, "/default");
    let info = fixmoviename::get_param(&vec![], &"/d".to_string());
    assert_eq!(info.from_path, "/d");
    assert_eq!(info.to_path, "/d");
}

#[test]
fn picture_params() {
    let args = vec!["prog".to_string()];
    let info = renamepngname::get_param(&args, &"/here".to_string());
    assert_eq!(info.from_path, "/here");
    let args = vec!["prog".to_string(), "/x".to_string()];
    assert_eq!(renamepngname::get_param(&args, &"/here".to_string()).from_path, "/x");
}

#[test]
fn movie_names() {
    let n = fixmoviename::movie_target_name("[电影天堂www.dytt89.com]流浪地球[国语].mp4").unwrap();
    assert_eq!(n.iter().collect::<String>(), "流浪地球国语.mp4");
    assert_eq!(fixmoviename::movie_target_name("movie.avi").unwrap_err(), SkipReason::WrongKind);
    assert_eq!(fixmoviename::movie_target_name("movie.mp4").unwrap_err(), SkipReason::NothingToFix);
    assert_eq!(fixmoviename::movie_target_name("[www.x.com]").unwrap_err(), SkipReason::WrongKind);
    assert_eq!(fixmoviename::movie_target_name("[www.a][]x.mov").unwrap(), "x.mov".chars().collect::<Vec<_>>());
}

#[test]
fn movie_entry_actions() {
    assert!(matches!(fixmoviename::movie_entry_action(true, "sub", "/downloads/sub", "/t"), EntryAction::Descend));
    match fixmoviename::movie_entry_action(false, "[www.a.com]Film.mp4", "/home/me/Download/[www.a.com]Film.mp4", "/home/me/Videos") {
        EntryAction::Rename(from, to) => {
            assert_eq!(from, "/home/me/Download/[www.a.com]Film.mp4");
            assert_eq!(to, "/home/me/Videos/Film.mp4");
        }
        other => panic!("unexpected {:?}", other),
    }
    assert!(matches!(
        fixmoviename::movie_entry_action(false, "[w]a.mp4", "/x/[w]a.mp4", "/t"),
        EntryAction::Skip(SkipReason::PathTooShort)
    ));
    assert!(fixmoviename::scan_depth_ok(2));
    assert!(!fixmoviename::scan_depth_ok(3));
}

#[test]
fn picture_extensions() {
    assert_eq!(renamepngname::name_extension("a.png"), Some("png".to_string()));
    assert_eq!(renamepngname::name_extension("a.tar.gz"), Some("gz".to_string()));
    assert_eq!(renamepngname::name_extension("noext"), None);
    assert_eq!(renamepngname::name_extension(".hidden"), None);
    assert_eq!(renamepngname::name_extension("dot."), Some("".to_string()));
    assert_eq!(renamepngname::name_extension(".."), None);
    assert_eq!(renamepngname::name_extension("."), None);
}

#[test]
fn picture_entry_actions() {
    match renamepngname::picture_entry_action(false, "my-photo-1.jpg", "/home/me/pics/my-photo-1.jpg", "/home/me/pics") {
        EntryAction::Rename(from, to) => {
            assert_eq!(from, "/home/me/pics/my-photo-1.jpg");
            assert_eq!(to, "/home/me/pics/myphoto1.jpg");
        }
        other => panic!("unexpected {:?}", other),
    }
    assert!(matches!(renamepngname::picture_entry_action(true, "d-1", "/p/d-1", "/p"), EntryAction::Skip(SkipReason::Directory)));
    assert!(matches!(renamepngname::picture_entry_action(false, "a-b.gif", "/p/a-b.gif", "/p"), EntryAction::Skip(SkipReason::WrongKind)));
    assert!(matches!(renamepngname::picture_entry_action(false, "ab.svg", "/p/ab.svg", "/p"), EntryAction::Skip(SkipReason::NothingToFix)));
    assert!(matches!(renamepngname::picture_entry_action(false, "README", "/p/README", "/p"), EntryAction::Skip(SkipReason::NoExtension)));
    assert!(matches!(renamepngname::picture_entry_action(false, "a-b.png", "/p/a-b.png", "/p"), EntryAction::Skip(SkipReason::PathTooShort)));
}
