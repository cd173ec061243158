use winmarks::events::WindowChange;
use winmarks::events::WmEvent;
use winmarks::events::should_refresh;
use winmarks::marks::MarkAllocator;
use winmarks::marks::default_alphabet;
use winmarks::plan::mark_commands;
use winmarks::plan::plan_marks;
use winmarks::plan::refresh_commands;
use winmarks::tree::Node;
use winmarks::tree::NodeKind;
use winmarks::tree::Tree;
use winmarks::tree::collect_windows;
use winmarks::workspace::Workspace;
use winmarks::workspace::visible_workspace_names;

fn node(id: i64, kind: NodeKind, name: Option<&str>, holds_window: bool) -> Node {
    Node {
        id,
        kind,
        name: name.map(|s| s.to_string()),
        holds_window,
        children: Vec::new(),
        floating: Vec::new(),
    }
}

fn window(id: i64) -> Node {
    node(id, NodeKind::SplitContainer, None, true)
}

fn workspace(name: &str, visible: bool, x: i32, y: i32) -> Workspace {
    Workspace { name: name.to_string(), visible, x, y }
}

/// Two visible workspaces, "1" top-left with two windows and "2" top-right
/// with one, alphabet "QWE": marks Q and W go to workspace "1" in traversal
/// order, then E to workspace "2".
#[test]
fn two_workspaces_scan_order() {
    let mut root = node(1, NodeKind::Root, None, false);
    root.children = vec![1, 4];
    let mut ws1 = node(10, NodeKind::Workspace, Some("1"), false);
    ws1.children = vec![2, 3];
    let mut ws2 = node(20, NodeKind::Workspace, Some("2"), false);
    ws2.children = vec![5];
    let tree = Tree {
        nodes: vec![root, ws1, window(101), window(102), ws2, window(201)],
        root: 0,
    };
    assert!(tree.is_well_formed());
    // Input order deliberately reversed; the selector sorts by position.
    let wss = vec![workspace("2", true, 100, 0), workspace("1", true, 0, 0)];
    let pairs = plan_marks(&tree, wss, vec!['Q', 'W', 'E']);
    assert_eq!(pairs, vec![(101, 'Q'), (102, 'W'), (201, 'E')]);
}

/// A window nested inside a DockArea produces zero pairs, even on a visible
/// workspace.
#[test]
fn window_inside_dock_area_unmarked() {
    let mut root = node(1, NodeKind::Root, None, false);
    root.children = vec![1];
    let mut ws1 = node(10, NodeKind::Workspace, Some("1"), false);
    ws1.children = vec![2];
    let mut dock = node(30, NodeKind::DockArea, None, false);
    dock.children = vec![3];
    let tree = Tree { nodes: vec![root, ws1, dock, window(301)], root: 0 };
    assert!(tree.is_well_formed());
    let pairs = plan_marks(&tree, vec![workspace("1", true, 0, 0)], vec!['Q', 'W']);
    assert!(pairs.is_empty());
}

/// A focus-only window event does not trigger a refresh; layout-changing
/// ones do.
#[test]
fn focus_event_no_refresh() {
    assert!(!should_refresh(&WmEvent::Window(WindowChange::Focus)));
    assert!(!should_refresh(&WmEvent::Window(WindowChange::Title)));
    assert!(!should_refresh(&WmEvent::Window(WindowChange::Floating)));
    assert!(!should_refresh(&WmEvent::Window(WindowChange::Urgent)));
    assert!(!should_refresh(&WmEvent::Window(WindowChange::Other)));
    assert!(should_refresh(&WmEvent::Window(WindowChange::New)));
    assert!(should_refresh(&WmEvent::Window(WindowChange::Close)));
    assert!(should_refresh(&WmEvent::Window(WindowChange::Move)));
    assert!(should_refresh(&WmEvent::Workspace));
    assert!(should_refresh(&WmEvent::Output));
}

/// More windows than marks: the first windows in traversal order take the
/// whole alphabet and the rest stay unmarked.
#[test]
fn alphabet_exhaustion() {
    let mut root = node(1, NodeKind::Root, None, false);
    root.children = vec![1];
    let mut ws1 = node(10, NodeKind::Workspace, Some("1"), false);
    ws1.children = vec![2, 3, 4];
    let tree = Tree {
        nodes: vec![root, ws1, window(11), window(12), window(13)],
        root: 0,
    };
    let pairs = plan_marks(&tree, vec![workspace("1", true, 0, 0)], vec!['Q', 'W']);
    assert_eq!(pairs, vec![(11, 'Q'), (12, 'W')]);
}

/// Re-running the pipeline on an identical snapshot yields identical pairs.
#[test]
fn rerun_is_deterministic() {
    let build = || {
        let mut root = node(1, NodeKind::Root, None, false);
        root.children = vec![1];
        let mut ws1 = node(10, NodeKind::Workspace, Some("1"), false);
        ws1.children = vec![2, 3];
        Tree { nodes: vec![root, ws1, window(7), window(8)], root: 0 }
    };
    let wss = || vec![workspace("1", true, 0, 0)];
    let first = plan_marks(&build(), wss(), vec!['Q', 'W']);
    let second = plan_marks(&build(), wss(), vec!['Q', 'W']);
    assert_eq!(first, second);
}

/// A workspace absent from the visible set contributes zero pairs even
/// though its subtree holds windows.
#[test]
fn hidden_workspace_contributes_nothing() {
    let mut root = node(1, NodeKind::Root, None, false);
    root.children = vec![1, 3];
    let mut ws1 = node(10, NodeKind::Workspace, Some("1"), false);
    ws1.children = vec![2];
    let mut ws2 = node(20, NodeKind::Workspace, Some("2"), false);
    ws2.children = vec![4];
    let tree = Tree {
        nodes: vec![root, ws1, window(11), ws2, window(21)],
        root: 0,
    };
    let wss = vec![workspace("1", true, 0, 0), workspace("2", false, 0, 0)];
    let pairs = plan_marks(&tree, wss, vec!['Q', 'W', 'E']);
    assert_eq!(pairs, vec![(11, 'Q')]);
}

/// Floating children are marked strictly after all regular children and
/// their descendants at the same container level.
#[test]
fn floating_marked_after_regular_children() {
    let mut root = node(1, NodeKind::Root, None, false);
    root.children = vec![1];
    let mut ws1 = node(10, NodeKind::Workspace, Some("1"), false);
    ws1.children = vec![2];
    ws1.floating = vec![5];
    let mut split = node(30, NodeKind::SplitContainer, None, false);
    split.children = vec![3, 4];
    let mut floater = node(40, NodeKind::FloatingContainer, None, false);
    floater.children = vec![6];
    let tree = Tree {
        nodes: vec![root, ws1, split, window(51), window(52), floater, window(61)],
        root: 0,
    };
    let pairs = plan_marks(&tree, vec![workspace("1", true, 0, 0)], vec!['Q', 'W', 'E']);
    assert_eq!(pairs, vec![(51, 'Q'), (52, 'W'), (61, 'E')]);
}

/// The selector orders visible workspaces top-to-bottom then left-to-right,
/// keeps ties in input order, and drops invisible workspaces.
#[test]
fn selector_scan_order() {
    let wss = vec![
        workspace("right", true, 1920, 0),
        workspace("hidden", false, 0, 0),
        workspace("lower", true, 0, 1080),
        workspace("left", true, 0, 0),
        workspace("tie", true, 1920, 0),
    ];
    let names = visible_workspace_names(wss);
    assert_eq!(names, vec!["left", "right", "tie", "lower"]);
}

/// The mark-set command text: a selector scoped to the container id, then
/// the replace directive with the bare mark character.
#[test]
fn command_text() {
    assert_eq!(
        winmarks::command::format_mark_command(123, 'Q'),
        "[con_id=\"123\"] mark --replace Q"
    );
    assert_eq!(
        winmarks::command::format_mark_command(0, 'W'),
        "[con_id=\"0\"] mark --replace W"
    );
    assert_eq!(
        winmarks::command::format_mark_command(-5, 'E'),
        "[con_id=\"-5\"] mark --replace E"
    );
    assert_eq!(
        winmarks::command::format_mark_command(i64::MIN, 'P'),
        "[con_id=\"-9223372036854775808\"] mark --replace P"
    );
}

/// The allocator hands out the alphabet in order, once, and then only
/// nothing.
#[test]
fn allocator_order_and_exhaustion() {
    let mut alloc = MarkAllocator::new(vec!['Q', 'W']);
    assert_eq!(alloc.take(), Some('Q'));
    assert_eq!(alloc.take(), Some('W'));
    assert_eq!(alloc.take(), None);
    assert_eq!(alloc.take(), None);
    let mut empty = MarkAllocator::new(Vec::new());
    assert_eq!(empty.take(), None);
}

/// The default alphabet is the top QWERTY letter row; an eleventh window
/// stays unmarked under it.
#[test]
fn default_alphabet_capacity() {
    let marks = default_alphabet();
    assert_eq!(marks, vec!['Q', 'W', 'E', 'R', 'T', 'Y', 'U', 'I', 'O', 'P']);
    let mut root = node(1, NodeKind::Root, None, false);
    root.children = vec![1];
    let mut ws1 = node(10, NodeKind::Workspace, Some("1"), false);
    ws1.children = (2usize..13).collect();
    let mut nodes = vec![root, ws1];
    for id in 1..=11 {
        nodes.push(window(id));
    }
    let tree = Tree { nodes, root: 0 };
    let cmds = refresh_commands(&tree, vec![workspace("1", true, 0, 0)]);
    assert_eq!(cmds.len(), 10);
    assert_eq!(cmds[0], "[con_id=\"1\"] mark --replace Q");
    assert_eq!(cmds[9], "[con_id=\"10\"] mark --replace P");
}

/// One command per pair, in pair order.
#[test]
fn commands_follow_pairs() {
    let cmds = mark_commands(&vec![(4, 'Q'), (9, 'W')]);
    assert_eq!(
        cmds,
        vec!["[con_id=\"4\"] mark --replace Q", "[con_id=\"9\"] mark --replace W"]
    );
}

/// The well-formedness check accepts a pre-order arena and rejects cycles,
/// back references and out-of-bounds indices.
#[test]
fn well_formedness_check() {
    let mut root = node(1, NodeKind::Root, None, false);
    root.children = vec![1];
    let good = Tree { nodes: vec![root, window(2)], root: 0 };
    assert!(good.is_well_formed());

    let mut back = node(1, NodeKind::Root, None, false);
    back.children = vec![1];
    let mut selfref = node(2, NodeKind::SplitContainer, None, false);
    selfref.children = vec![0];
    let cyclic = Tree { nodes: vec![back, selfref], root: 0 };
    assert!(!cyclic.is_well_formed());

    let mut oob = node(1, NodeKind::Root, None, false);
    oob.children = vec![5];
    let dangling = Tree { nodes: vec![oob], root: 0 };
    assert!(!dangling.is_well_formed());

    let empty = Tree { nodes: Vec::new(), root: 0 };
    assert!(!empty.is_well_formed());
}

/// The raw window collection honours pruning and workspace scan order.
#[test]
fn collect_honours_pruning_and_order() {
    let mut root = node(1, NodeKind::Root, None, false);
    root.children = vec![1, 3, 5];
    let mut dock = node(90, NodeKind::DockArea, None, false);
    dock.children = vec![2];
    let mut ws_b = node(10, NodeKind::Workspace, Some("b"), false);
    ws_b.children = vec![4];
    let mut ws_a = node(20, NodeKind::Workspace, Some("a"), false);
    ws_a.children = vec![6];
    let tree = Tree {
        nodes: vec![root, dock, window(900), ws_b, window(31), ws_a, window(41)],
        root: 0,
    };
    let names = vec!["a".to_string(), "b".to_string()];
    let ids = collect_windows(&tree, &names);
    assert_eq!(ids, vec![41, 31]);
}

/// An empty tree, an empty workspace list, and a workspace with no windows
/// all produce an empty plan.
#[test]
fn empty_inputs() {
    let lone = Tree { nodes: vec![node(1, NodeKind::Root, None, false)], root: 0 };
    assert!(lone.is_well_formed());
    let pairs = plan_marks(&lone, Vec::new(), vec!['Q']);
    assert!(pairs.is_empty());

    let mut root = node(1, NodeKind::Root, None, false);
    root.children = vec![1];
    let ws_empty = node(10, NodeKind::Workspace, Some("1"), false);
    let tree = Tree { nodes: vec![root, ws_empty], root: 0 };
    let pairs = plan_marks(&tree, vec![workspace("1", true, 0, 0)], vec!['Q']);
    assert!(pairs.is_empty());
}
