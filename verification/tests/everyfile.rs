use plix::everyfile::{
    attach, node, node_init, plix_everyfile_current, plix_everyfile_enter_user,
    plix_everyfile_goto, plix_everyfile_init, plix_everyfile_name_is_reserved,
    plix_everyfile_path, plix_everyfile_show, PlixEveryfile, PlixEveryfileNode, DIRECTORY,
    GUEST_HOME_NODE, MAX_CHILDREN, ROOT_HOME_NODE, TEXT,
};

fn path_of(fs: &PlixEveryfile) -> Vec<u8> {
    let mut buf = [0xaau8; 128];
    let n = plix_everyfile_path(fs, &mut buf, 128);
    assert_eq!(buf[n], 0);
    buf[..n].to_vec()
}

#[test]
fn initial_tree_starts_in_root_home() {
    let fs = PlixEveryfile::new();
    assert_eq!(fs.nodes.len(), 12);
    assert_eq!(fs.current, ROOT_HOME_NODE);
    assert_eq!(fs.active_user, ROOT_HOME_NODE);
    assert_eq!(path_of(&fs), b"/users/root".to_vec());
    assert_eq!(plix_everyfile_current(&fs).name, b"root".to_vec());
}

#[test]
fn init_resets_a_moved_tree() {
    let mut fs = PlixEveryfile::new();
    assert_eq!(plix_everyfile_goto(&mut fs, b"/"), 0);
    plix_everyfile_init(&mut fs);
    assert_eq!(path_of(&fs), b"/users/root".to_vec());
}

#[test]
fn goto_absolute_and_relative() {
    let mut fs = PlixEveryfile::new();
    assert_eq!(plix_everyfile_goto(&mut fs, b"/users/guest/main"), 0);
    assert_eq!(path_of(&fs), b"/users/guest/main".to_vec());
    assert_eq!(plix_everyfile_goto(&mut fs, b"../house"), 0);
    assert_eq!(path_of(&fs), b"/users/guest/house".to_vec());
    assert_eq!(plix_everyfile_goto(&mut fs, b"./..//./"), 0);
    assert_eq!(path_of(&fs), b"/users/guest".to_vec());
}

#[test]
fn goto_root_and_above() {
    let mut fs = PlixEveryfile::new();
    assert_eq!(plix_everyfile_goto(&mut fs, b"/"), 0);
    assert_eq!(path_of(&fs), b"/".to_vec());
    assert_eq!(plix_everyfile_goto(&mut fs, b"../.."), 0);
    assert_eq!(path_of(&fs), b"/".to_vec());
    assert_eq!(fs.current, 0);
}

#[test]
fn goto_empty_path_stays() {
    let mut fs = PlixEveryfile::new();
    assert_eq!(plix_everyfile_goto(&mut fs, b""), 0);
    assert_eq!(fs.current, ROOT_HOME_NODE);
}

#[test]
fn goto_into_a_text_file_fails() {
    let mut fs = PlixEveryfile::new();
    assert_eq!(plix_everyfile_goto(&mut fs, b"main/system"), -1);
    assert_eq!(fs.current, ROOT_HOME_NODE);
    assert_eq!(path_of(&fs), b"/users/root".to_vec());
}

#[test]
fn goto_missing_directory_fails_unchanged() {
    let mut fs = PlixEveryfile::new();
    assert_eq!(plix_everyfile_goto(&mut fs, b"/users/nobody"), -1);
    assert_eq!(plix_everyfile_goto(&mut fs, b"/etc"), -1);
    assert_eq!(fs.current, ROOT_HOME_NODE);
}

#[test]
fn goto_path_ends_at_zero_byte() {
    let mut fs = PlixEveryfile::new();
    assert_eq!(plix_everyfile_goto(&mut fs, b"house\0/../nonsense"), 0);
    assert_eq!(path_of(&fs), b"/users/root/house".to_vec());
}

#[test]
fn path_with_zero_capacity_writes_nothing() {
    let fs = PlixEveryfile::new();
    let mut buf = [7u8; 4];
    assert_eq!(plix_everyfile_path(&fs, &mut buf, 0), 0);
    assert_eq!(buf, [7, 7, 7, 7]);
}

#[test]
fn path_with_capacity_one_is_empty() {
    let fs = PlixEveryfile::new();
    let mut buf = [7u8; 4];
    assert_eq!(plix_everyfile_path(&fs, &mut buf, 1), 0);
    assert_eq!(buf, [0, 7, 7, 7]);
}

#[test]
fn path_is_cut_to_capacity() {
    let fs = PlixEveryfile::new();
    let mut buf = [7u8; 8];
    assert_eq!(plix_everyfile_path(&fs, &mut buf, 5), 4);
    assert_eq!(buf, [b'/', b'u', b's', b'e', 0, 7, 7, 7]);
}

#[test]
fn show_lists_children() {
    let fs = PlixEveryfile::new();
    let mut names: Vec<Vec<u8>> = vec![Vec::new(); 8];
    assert_eq!(plix_everyfile_show(&fs, &mut names, 8), 2);
    assert_eq!(names[0], b"main".to_vec());
    assert_eq!(names[1], b"house".to_vec());
    assert!(names[2].is_empty());
}

#[test]
fn show_respects_capacity() {
    let fs = PlixEveryfile::new();
    let mut names: Vec<Vec<u8>> = vec![b"x".to_vec(); 2];
    assert_eq!(plix_everyfile_show(&fs, &mut names, 1), 2);
    assert_eq!(names[0], b"main".to_vec());
    assert_eq!(names[1], b"x".to_vec());
}

#[test]
fn enter_user_moves_to_home() {
    let mut fs = PlixEveryfile::new();
    assert_eq!(plix_everyfile_enter_user(&mut fs, b"guest"), 0);
    assert_eq!(fs.current, GUEST_HOME_NODE);
    assert_eq!(fs.active_user, GUEST_HOME_NODE);
    assert_eq!(path_of(&fs), b"/users/guest".to_vec());
}

#[test]
fn enter_unknown_user_fails() {
    let mut fs = PlixEveryfile::new();
    assert_eq!(plix_everyfile_enter_user(&mut fs, b"nobody"), -1);
    assert_eq!(plix_everyfile_enter_user(&mut fs, b"gues"), -1);
    assert_eq!(fs.current, ROOT_HOME_NODE);
}

#[test]
fn etc_and_home_are_reserved() {
    assert_eq!(plix_everyfile_name_is_reserved(b"etc"), 1);
    assert_eq!(plix_everyfile_name_is_reserved(b"home"), 1);
    assert_eq!(plix_everyfile_name_is_reserved(b"home\0x"), 1);
    assert_eq!(plix_everyfile_name_is_reserved(b"main"), 0);
    assert_eq!(plix_everyfile_name_is_reserved(b"homes"), 0);
    assert_eq!(plix_everyfile_name_is_reserved(b""), 0);
}

#[test]
fn text_nodes_hold_their_text() {
    let fs = PlixEveryfile::new();
    assert_eq!(fs.nodes[5].kind, TEXT);
    assert_eq!(fs.nodes[5].text, Some(b"main ersetzt etc fuer globale Konfiguration".to_vec()));
    assert_eq!(fs.nodes[3].kind, DIRECTORY);
    assert_eq!(fs.nodes[3].text, None);
}

#[test]
fn attach_stops_at_max_children() {
    let mut nodes: Vec<PlixEveryfileNode> = Vec::new();
    for _ in 0..(MAX_CHILDREN + 2) {
        nodes.push(node());
    }
    for child in 1..(MAX_CHILDREN + 2) {
        attach(&mut nodes, 0, child);
    }
    assert_eq!(nodes[0].children.len(), MAX_CHILDREN);
    assert_eq!(nodes[MAX_CHILDREN].parent, Some(0));
    assert_eq!(nodes[MAX_CHILDREN + 1].parent, None);
}

#[test]
fn node_init_resets_a_node() {
    let mut n = node();
    n.parent = Some(3);
    n.children.push(4);
    node_init(&mut n, b"notes", TEXT, Some(b"hello"));
    assert_eq!(n.name, b"notes".to_vec());
    assert_eq!(n.kind, TEXT);
    assert_eq!(n.text, Some(b"hello".to_vec()));
    assert_eq!(n.parent, None);
    assert!(n.children.is_empty());
}

#[test]
fn goto_own_path_returns_to_every_directory() {
    for target in [b"/".as_slice(), b"/users", b"/users/root", b"/users/root/main", b"/users/root/house", b"/users/guest", b"/users/guest/main", b"/users/guest/house"] {
        let mut fs = PlixEveryfile::new();
        assert_eq!(plix_everyfile_goto(&mut fs, target), 0);
        let here = fs.current;
        let path = path_of(&fs);
        assert_eq!(path, target.to_vec());
        assert_eq!(plix_everyfile_goto(&mut fs, b"/users/guest/house"), 0);
        assert_eq!(plix_everyfile_goto(&mut fs, &path), 0);
        assert_eq!(fs.current, here);
    }
}
