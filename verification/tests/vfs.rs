use srvfs::attr::{Attributes, FileKind};
use srvfs::error::FsError;
use srvfs::table::NameTable;
use srvfs::vfs::VFS;

fn sorted_listing(fs: &VFS, ino: u64) -> Vec<(u64, String, FileKind)> {
    let mut lines: Vec<(u64, String, FileKind)> = fs
        .children(ino)
        .into_iter()
        .map(|node| (node.ino, node.name, node.kind))
        .collect();
    lines.sort_by(|a, b| a.0.cmp(&b.0));
    lines
}

#[test]
fn it_creates_regular_files() {
    let mut fs = VFS::new();
    fs.create(1, "foo", FileKind::RegularFile).unwrap();
    let foo = fs.lookup(1, "foo");
    assert!(foo.is_some());
    let foo = foo.unwrap();
    assert_eq!(foo.ino, 2);
    assert_eq!(foo.perm, 0o644);
}

#[test]
fn it_creates_nested_dirs() {
    let mut fs = VFS::new();
    fs.create(1, "foo", FileKind::Directory).unwrap();
    let foo = fs.lookup(1, "foo").unwrap();
    fs.create(foo.ino, "bar", FileKind::Directory).unwrap();
    let bar = fs.lookup(foo.ino, "bar").unwrap();
    assert_eq!(bar.kind, FileKind::Directory);
}

#[test]
fn new_arena_holds_sentinel_and_root() {
    let fs = VFS::new();
    assert_eq!(fs.len(), 2);
    assert!(fs.get(0).is_none());
    let root = fs.get(1).unwrap();
    assert_eq!(root.ino, 1);
    assert_eq!(root.name, "/");
    assert_eq!(root.kind, FileKind::Directory);
    assert!(fs.get(2).is_none());
    assert!(fs.children(1).is_empty());
}

#[test]
fn create_hands_out_the_next_inode_number() {
    let mut fs = VFS::new();
    assert_eq!(fs.create(1, "a", FileKind::Directory), Ok(2));
    assert_eq!(fs.create(2, "b", FileKind::RegularFile), Ok(3));
    assert_eq!(fs.create(1, "c", FileKind::RegularFile), Ok(4));
    assert_eq!(fs.len(), 5);
    assert_eq!(fs.get(3).unwrap().name, "b");
    assert_eq!(fs.get(3).unwrap().ino, 3);
    assert_eq!(fs.get(4).unwrap().kind, FileKind::RegularFile);
}

#[test]
fn create_under_a_missing_parent_fails_and_changes_nothing() {
    let mut fs = VFS::new();
    assert_eq!(fs.create(2, "a", FileKind::RegularFile), Err(FsError::NotFound));
    assert_eq!(fs.create(0, "a", FileKind::RegularFile), Err(FsError::NotFound));
    assert_eq!(fs.create(u64::MAX, "a", FileKind::RegularFile), Err(FsError::NotFound));
    assert_eq!(fs.len(), 2);
    assert!(fs.children(1).is_empty());
    assert_eq!(fs.create(1, "a", FileKind::RegularFile), Ok(2));
}

#[test]
fn lookup_finds_each_distinct_name_with_its_inode_and_kind() {
    let mut fs = VFS::new();
    let dir = fs.create(1, "dir", FileKind::Directory).unwrap();
    let made = [
        ("one", FileKind::RegularFile),
        ("two", FileKind::Directory),
        ("three", FileKind::Symlink),
        ("", FileKind::RegularFile),
        ("a/b", FileKind::Socket),
    ];
    let mut inos = Vec::new();
    for (name, kind) in made.iter() {
        inos.push(fs.create(dir, name, *kind).unwrap());
    }
    assert_eq!(inos, vec![3, 4, 5, 6, 7]);
    for (i, (name, kind)) in made.iter().enumerate() {
        let found = fs.lookup(dir, name).unwrap();
        assert_eq!(found.ino, inos[i]);
        assert_eq!(found.kind, *kind);
    }
}

#[test]
fn lookup_of_a_name_never_created_is_absent() {
    let mut fs = VFS::new();
    let dir = fs.create(1, "dir", FileKind::Directory).unwrap();
    fs.create(dir, "inner", FileKind::RegularFile).unwrap();
    fs.create(1, "outer", FileKind::RegularFile).unwrap();
    assert!(fs.lookup(1, "inner").is_none());
    assert!(fs.lookup(dir, "outer").is_none());
    assert!(fs.lookup(dir, "dir").is_none());
    assert!(fs.lookup(1, "").is_none());
    assert!(fs.lookup(1, "/").is_none());
    assert!(fs.lookup(3, "inner").is_none());
    assert!(fs.lookup(1, "dir").is_some());
}

#[test]
fn lookup_under_an_unknown_inode_is_absent() {
    let mut fs = VFS::new();
    fs.create(1, "foo", FileKind::RegularFile).unwrap();
    assert!(fs.lookup(3, "foo").is_none());
    assert!(fs.lookup(99, "foo").is_none());
    assert!(fs.lookup(u64::MAX, "foo").is_none());
    assert!(fs.lookup(0, "foo").is_none());
}

#[test]
fn children_are_exactly_those_created() {
    let mut fs = VFS::new();
    let dir = fs.create(1, "dir", FileKind::Directory).unwrap();
    fs.create(dir, "x", FileKind::RegularFile).unwrap();
    fs.create(dir, "y", FileKind::Directory).unwrap();
    fs.create(1, "elsewhere", FileKind::RegularFile).unwrap();
    fs.create(dir, "z", FileKind::RegularFile).unwrap();
    assert_eq!(
        sorted_listing(&fs, dir),
        vec![
            (3, String::from("x"), FileKind::RegularFile),
            (4, String::from("y"), FileKind::Directory),
            (6, String::from("z"), FileKind::RegularFile),
        ]
    );
    assert_eq!(
        sorted_listing(&fs, 1),
        vec![
            (2, String::from("dir"), FileKind::Directory),
            (5, String::from("elsewhere"), FileKind::RegularFile),
        ]
    );
    assert_eq!(sorted_listing(&fs, dir), sorted_listing(&fs, dir));
}

#[test]
fn children_of_a_childless_or_unknown_node_are_none() {
    let mut fs = VFS::new();
    let file = fs.create(1, "file", FileKind::RegularFile).unwrap();
    assert!(fs.children(file).is_empty());
    assert!(fs.children(0).is_empty());
    assert!(fs.children(17).is_empty());
}

#[test]
fn listed_children_carry_no_children() {
    let mut fs = VFS::new();
    let dir = fs.create(1, "dir", FileKind::Directory).unwrap();
    fs.create(dir, "inner", FileKind::RegularFile).unwrap();
    let listing = fs.children(1);
    assert_eq!(listing.len(), 1);
    assert_eq!(listing[0].children.len(), 0);
    assert_eq!(fs.get(dir).unwrap().children.len(), 1);
}

#[test]
fn creating_a_name_again_leads_to_the_new_node() {
    let mut fs = VFS::new();
    assert_eq!(fs.create(1, "foo", FileKind::RegularFile), Ok(2));
    assert_eq!(fs.create(1, "foo", FileKind::Directory), Ok(3));
    let foo = fs.lookup(1, "foo").unwrap();
    assert_eq!(foo.ino, 3);
    assert_eq!(foo.kind, FileKind::Directory);
    assert_eq!(sorted_listing(&fs, 1), vec![(3, String::from("foo"), FileKind::Directory)]);
    assert_eq!(fs.len(), 4);
    assert_eq!(fs.get(2).unwrap().kind, FileKind::RegularFile);
}

#[test]
fn one_name_under_two_parents_names_two_nodes() {
    let mut fs = VFS::new();
    let a = fs.create(1, "a", FileKind::Directory).unwrap();
    let b = fs.create(1, "b", FileKind::Directory).unwrap();
    let in_a = fs.create(a, "same", FileKind::RegularFile).unwrap();
    let in_b = fs.create(b, "same", FileKind::RegularFile).unwrap();
    assert_ne!(in_a, in_b);
    assert_eq!(fs.lookup(a, "same").unwrap().ino, in_a);
    assert_eq!(fs.lookup(b, "same").unwrap().ino, in_b);
}

#[test]
fn a_regular_file_can_be_a_parent() {
    let mut fs = VFS::new();
    let file = fs.create(1, "file", FileKind::RegularFile).unwrap();
    assert_eq!(fs.create(file, "below", FileKind::RegularFile), Ok(3));
    assert_eq!(fs.lookup(file, "below").unwrap().ino, 3);
}

#[test]
fn kinds_stay_as_created() {
    let mut fs = VFS::new();
    fs.create(1, "d", FileKind::Directory).unwrap();
    fs.create(1, "f", FileKind::RegularFile).unwrap();
    for i in 0..20 {
        fs.create(2, &format!("n{}", i), FileKind::RegularFile).unwrap();
    }
    assert_eq!(fs.get(1).unwrap().kind, FileKind::Directory);
    assert_eq!(fs.get(2).unwrap().kind, FileKind::Directory);
    assert_eq!(fs.get(3).unwrap().kind, FileKind::RegularFile);
    assert_eq!(fs.lookup(1, "d").unwrap().ino, 2);
    assert_eq!(fs.children(2).len(), 20);
}

#[test]
fn attributes_are_synthesized() {
    let mut fs = VFS::new();
    let ino = fs.create(1, "foo", FileKind::RegularFile).unwrap();
    let expected = Attributes {
        ino: 2,
        size: 0,
        blocks: 0,
        atime: 0,
        mtime: 0,
        ctime: 0,
        crtime: 0,
        kind: FileKind::RegularFile,
        perm: 0o644,
        nlink: 2,
        uid: 501,
        gid: 20,
        rdev: 0,
        blksize: 512,
        flags: 0,
    };
    assert_eq!(fs.get(ino).unwrap().attr(), expected);
    assert_eq!(fs.lookup(1, "foo"), Some(expected));
    assert_eq!(Attributes::synthesize(2, FileKind::RegularFile), expected);
}

#[test]
fn permissions_go_by_kind() {
    assert_eq!(Attributes::synthesize(5, FileKind::Directory).perm, 0o755);
    assert_eq!(Attributes::synthesize(5, FileKind::RegularFile).perm, 0o644);
    assert_eq!(Attributes::synthesize(5, FileKind::Symlink).perm, 0o444);
    assert_eq!(Attributes::synthesize(5, FileKind::NamedPipe).perm, 0o444);
    assert_eq!(Attributes::synthesize(5, FileKind::CharDevice).perm, 0o444);
    assert_eq!(Attributes::synthesize(5, FileKind::BlockDevice).perm, 0o444);
    assert_eq!(Attributes::synthesize(5, FileKind::Socket).perm, 0o444);
    assert_eq!(Attributes::synthesize(5, FileKind::Directory).ino, 5);
    assert_eq!(Attributes::synthesize(5, FileKind::Directory).kind, FileKind::Directory);
}

#[test]
fn a_table_binds_each_name_once() {
    let mut table = NameTable::new();
    assert_eq!(table.len(), 0);
    assert_eq!(table.get(&String::from("a")), None);
    table.insert(String::from("a"), 7);
    table.insert(String::from("b"), 8);
    assert_eq!(table.len(), 2);
    assert_eq!(table.get(&String::from("a")), Some(7));
    assert_eq!(table.get(&String::from("b")), Some(8));
    assert_eq!(table.get(&String::from("c")), None);
    table.insert(String::from("a"), 9);
    assert_eq!(table.len(), 2);
    assert_eq!(table.get(&String::from("a")), Some(9));
    assert_eq!(table.get(&String::from("b")), Some(8));
    assert_eq!(table.at(0).name, "a");
    assert_eq!(table.at(0).number, 9);
    assert_eq!(table.at(1).name, "b");
    assert_eq!(table.at(1).number, 8);
}
