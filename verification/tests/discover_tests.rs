use obj_translator::discover::discover;
use obj_translator::discover::WalkItem;
use obj_translator::error::Error;
use obj_translator::names::is_mesh_extension;
use obj_translator::names::output_file_name;

fn entry(path: &str, extension: Option<&str>) -> WalkItem {
    WalkItem::Entry {
        path: path.to_string(),
        extension: extension.map(|e| e.to_string()),
        is_file: true,
    }
}

fn directory(path: &str, extension: Option<&str>) -> WalkItem {
    WalkItem::Entry {
        path: path.to_string(),
        extension: extension.map(|e| e.to_string()),
        is_file: false,
    }
}

#[test]
fn a_walk_without_mesh_files_yields_nothing() {
    let items = vec![
        directory("root", None),
        entry("root/readme.txt", Some("txt")),
        entry("root/metadata.xml", Some("xml")),
        directory("root/Block", None),
    ];
    assert_eq!(discover(&items), Ok(vec![]));
}

#[test]
fn an_empty_walk_yields_nothing() {
    assert_eq!(discover(&vec![]), Ok(vec![]));
}

#[test]
fn mesh_files_are_found_in_the_order_of_the_walk() {
    let items = vec![
        entry("root", None),
        entry("root/b.obj", Some("obj")),
        entry("root/metadata.xml", Some("xml")),
        entry("root/Block", None),
        entry("root/Block/a.obj", Some("obj")),
        entry("root/Block/a.mtl", Some("mtl")),
    ];
    assert_eq!(
        discover(&items),
        Ok(vec!["root/b.obj".to_string(), "root/Block/a.obj".to_string()])
    );
}

#[test]
fn a_directory_is_no_mesh_file() {
    let items = vec![
        directory("root", None),
        directory("root/x.obj", Some("obj")),
        entry("root/x.obj/a.obj", Some("obj")),
        directory("root/x.obj/b.obj", Some("obj")),
    ];
    assert_eq!(discover(&items), Ok(vec!["root/x.obj/a.obj".to_string()]));
}

#[test]
fn a_tree_that_holds_only_directories_yields_nothing() {
    let items = vec![directory("root.obj", Some("obj")), directory("root.obj/sub.obj", Some("obj"))];
    assert_eq!(discover(&items), Ok(vec![]));
}

#[test]
fn the_case_of_the_extension_counts() {
    let items = vec![entry("a.OBJ", Some("OBJ")), entry("b.Obj", Some("Obj")), entry("c.obj", Some("obj"))];
    assert_eq!(discover(&items), Ok(vec!["c.obj".to_string()]));
}

#[test]
fn a_name_that_only_ends_like_the_extension_is_no_mesh() {
    let items = vec![entry("obj", None), entry("a.xobj", Some("xobj")), entry("a.obj.bak", Some("bak"))];
    assert_eq!(discover(&items), Ok(vec![]));
}

#[test]
fn an_unreadable_root_fails_the_scan() {
    let items = vec![WalkItem::Unreadable { depth: 0 }];
    assert_eq!(discover(&items), Err(Error::PathUnreadable));
}

#[test]
fn an_unreadable_root_fails_the_scan_wherever_it_stands() {
    let items = vec![entry("root/a.obj", Some("obj")), WalkItem::Unreadable { depth: 0 }];
    assert_eq!(discover(&items), Err(Error::PathUnreadable));
}

#[test]
fn an_unreadable_place_below_the_root_is_passed_over() {
    let items = vec![
        entry("root", None),
        WalkItem::Unreadable { depth: 1 },
        entry("root/a.obj", Some("obj")),
        WalkItem::Unreadable { depth: 3 },
    ];
    assert_eq!(discover(&items), Ok(vec!["root/a.obj".to_string()]));
}

#[test]
fn the_mesh_extension() {
    assert!(is_mesh_extension("obj"));
    assert!(!is_mesh_extension("OBJ"));
    assert!(!is_mesh_extension(""));
    assert!(!is_mesh_extension("ob"));
    assert!(!is_mesh_extension("objx"));
    assert!(!is_mesh_extension(".obj"));
}

#[test]
fn the_name_of_the_translation() {
    assert_eq!(output_file_name("a"), "a_tr.obj");
    assert_eq!(output_file_name("name"), "name_tr.obj");
    assert_eq!(output_file_name("Tile_+003_+004"), "Tile_+003_+004_tr.obj");
    assert_eq!(output_file_name(""), "_tr.obj");
    assert_eq!(output_file_name("a.b"), "a.b_tr.obj");
}
