//! The window system's node tree: a desktop root, windows with their
//! buttons, and terminals, all held in one arena of nodes addressed by
//! index.  Drawing walks the tree into the framebuffer model; the mouse
//! and the event loop that feed it live outside this crate.

use vstd::prelude::*;

verus! {

use crate::framebuffer::Framebuffer;
use crate::framebuffer::COORD_LIMIT;

pub type NodeId = usize;

/// What a button does when clicked: a named action the event loop
/// interprets when the click lands.
#[derive(Debug, Clone, Copy, PartialEq, Eq, Structural)]
pub enum ButtonAction {
    Minimize,
    Maximize,
    Close,
}

#[derive(Debug, Clone, Copy, PartialEq, Eq, Structural)]
pub enum ButtonState {
    Normal,
    Pressed,
}

pub struct DesktopData {}

pub struct WindowData {
    pub title: &'static str,
    pub minimized_x: isize,
    pub minimized_y: isize,
    pub minimized_width: isize,
    pub minimized_height: isize,
}

pub struct ButtonData {
    pub text: &'static str,
    pub on_click: Option<ButtonAction>,
    pub state: ButtonState,
}

impl ButtonData {
    pub fn new(text: &'static str, on_click: Option<ButtonAction>) -> (r: ButtonData)
        ensures
            r.text == text,
            r.on_click == on_click,
            r.state == ButtonState::Normal,
    {
        ButtonData { text, on_click, state: ButtonState::Normal }
    }
}

pub struct TerminalData {
    pub buffer: Vec<Vec<u8>>,
    pub cursor_x: usize,
    pub cursor_y: usize,
    pub text_color: u32,
}

pub enum GuiElement {
    Desktop(DesktopData),
    Window(WindowData),
    Button(ButtonData),
    Terminal(TerminalData),
    Dead,
}

/// One node of the tree: its element, its place among the others, and its
/// rectangle relative to its parent.
pub struct GuiNode {
    pub element: GuiElement,
    pub parent: Option<NodeId>,
    pub children: Vec<NodeId>,
    pub x: isize,
    pub y: isize,
    pub width: isize,
    pub height: isize,
    pub dirty: bool,
}

/// Geometry and text bounds a node must keep so that drawing it stays
/// within the framebuffer's coordinate range.
pub open spec fn node_wf(n: GuiNode, count: int) -> bool {
    &&& -COORD_LIMIT <= n.x <= COORD_LIMIT
    &&& -COORD_LIMIT <= n.y <= COORD_LIMIT
    &&& 0 <= n.width <= 4096
    &&& 0 <= n.height <= 4096
    &&& match n.parent {
        Some(p) => p < count,
        None => true,
    }
    &&& (forall|k: int| 0 <= k < n.children@.len() ==> (#[trigger] n.children@[k]) < count)
}

/// The node arena, the root, reusable slots, and the drag and resize
/// states the event loop reads.
pub struct GuiSystem {
    pub nodes: Vec<GuiNode>,
    pub root: NodeId,
    pub free_list: Vec<NodeId>,
    pub dragging: Option<(NodeId, isize, isize)>,
    pub resizing: Option<NodeId>,
}

impl GuiSystem {
    pub open spec fn wf(self) -> bool {
        &&& self.root < self.nodes@.len()
        &&& self.nodes@.len() <= 0x1_0000
        &&& (forall|k: int|
            0 <= k < self.nodes@.len() ==> node_wf(
                #[trigger] self.nodes@[k],
                self.nodes@.len() as int,
            ))
        &&& (forall|k: int|
            0 <= k < self.free_list@.len() ==> (#[trigger] self.free_list@[k])
                < self.nodes@.len())
    }

    /// A tree holding only the desktop, sized to the framebuffer.
    pub fn new(fb_width: isize, fb_height: isize) -> (r: GuiSystem)
        requires
            0 <= fb_width <= 4096,
            0 <= fb_height <= 4096,
        ensures
            r.wf(),
            r.nodes@.len() == 1,
            r.root == 0,
            r.free_list@.len() == 0,
            r.dragging is None,
            r.resizing is None,
    {
        let root = GuiNode {
            element: GuiElement::Desktop(DesktopData {}),
            parent: None,
            children: Vec::new(),
            x: 0,
            y: 0,
            width: fb_width,
            height: fb_height,
            dirty: true,
        };
        let mut nodes: Vec<GuiNode> = Vec::new();
        nodes.push(root);
        GuiSystem { nodes, root: 0, free_list: Vec::new(), dragging: None, resizing: None }
    }

    /// Place `element` as a child of `parent`, reusing a freed slot if one
    /// exists; the new node's index is returned.
    pub fn add_node(
        &mut self,
        parent: NodeId,
        element: GuiElement,
        x: isize,
        y: isize,
        w: isize,
        h: isize,
    ) -> (id: NodeId)
        requires
            old(self).wf(),
            parent < old(self).nodes@.len(),
            old(self).nodes@.len() < 0x1_0000,
            -COORD_LIMIT <= x <= COORD_LIMIT,
            -COORD_LIMIT <= y <= COORD_LIMIT,
            0 <= w <= 4096,
            0 <= h <= 4096,
        ensures
            final(self).wf(),
            id < final(self).nodes@.len(),
            final(self).nodes@.len() <= old(self).nodes@.len() + 1,
            final(self).nodes@.len() >= old(self).nodes@.len(),
            final(self).nodes@[id as int].x == x,
            final(self).nodes@[id as int].y == y,
            final(self).nodes@[id as int].width == w,
            final(self).nodes@[id as int].height == h,
            final(self).nodes@[id as int].parent == Some(parent),
            final(self).nodes@[id as int].dirty == true,
            final(self).root == old(self).root,
    {
        let reused = self.free_list.pop();
        let id = match reused {
            Some(free_id) => {
                if free_id != self.root && free_id < self.nodes.len() {
                    self.nodes[free_id] = GuiNode {
                        element,
                        parent: Some(parent),
                        children: Vec::new(),
                        x,
                        y,
                        width: w,
                        height: h,
                        dirty: true,
                    };
                    free_id
                } else {
                    let id = self.nodes.len();
                    self.nodes.push(
                        GuiNode {
                            element,
                            parent: Some(parent),
                            children: Vec::new(),
                            x,
                            y,
                            width: w,
                            height: h,
                            dirty: true,
                        },
                    );
                    id
                }
            },
            None => {
                let id = self.nodes.len();
                self.nodes.push(
                    GuiNode {
                        element,
                        parent: Some(parent),
                        children: Vec::new(),
                        x,
                        y,
                        width: w,
                        height: h,
                        dirty: true,
                    },
                );
                id
            },
        };
        proof {
            assert forall|k: int| 0 <= k < self.nodes@.len() implies node_wf(
                #[trigger] self.nodes@[k],
                self.nodes@.len() as int,
            ) by {
                if k < old(self).nodes@.len() && self.nodes@[k] == old(self).nodes@[k] {
                    assert(node_wf(old(self).nodes@[k], old(self).nodes@.len() as int));
                }
            }
        }
        let child_list = &mut self.nodes[parent];
        child_list.children.push(id);
        proof {
            assert forall|k: int| 0 <= k < self.nodes@.len() implies node_wf(
                #[trigger] self.nodes@[k],
                self.nodes@.len() as int,
            ) by {}
        }
        id
    }

    /// Clear a node: its element dies, its children are forgotten and its
    /// slot becomes reusable.
    pub fn kill_node(&mut self, id: NodeId)
        requires
            old(self).wf(),
            id < old(self).nodes@.len(),
        ensures
            final(self).wf(),
            final(self).nodes@.len() == old(self).nodes@.len(),
            final(self).nodes@[id as int].element is Dead,
            final(self).nodes@[id as int].children@.len() == 0,
            final(self).free_list@ == old(self).free_list@.push(id),
            final(self).root == old(self).root,
    {
        let node = &mut self.nodes[id];
        node.element = GuiElement::Dead;
        node.children.clear();
        self.free_list.push(id);
    }

    /// Mark every child of `id` as needing a redraw.
    pub fn mark_dirty(&mut self, id: NodeId)
        requires
            old(self).wf(),
            id < old(self).nodes@.len(),
        ensures
            final(self).wf(),
            final(self).nodes@.len() == old(self).nodes@.len(),
            final(self).root == old(self).root,
            forall|j: int|
                0 <= j < old(self).nodes@.len() ==> (#[trigger] final(self).nodes@[j]).children@
                    == old(self).nodes@[j].children@,
    {
        let n = self.nodes[id].children.len();
        let mut k: usize = 0;
        while k < n
            invariant
                k <= n,
                self.wf(),
                id < self.nodes@.len(),
                n == self.nodes@[id as int].children@.len(),
                self.nodes@.len() == old(self).nodes@.len(),
                self.root == old(self).root,
                forall|j: int|
                    0 <= j < old(self).nodes@.len() ==> (#[trigger] self.nodes@[j]).children@
                        == old(self).nodes@[j].children@,
            decreases n - k,
        {
            let child_id = self.nodes[id].children[k];
            let child = &mut self.nodes[child_id];
            child.dirty = true;
            proof {
                assert forall|j: int| 0 <= j < self.nodes@.len() implies node_wf(
                    #[trigger] self.nodes@[j],
                    self.nodes@.len() as int,
                ) by {}
            }
            k = k + 1;
        }
    }

    /// Kill `id` and everything below it, walking a work list; a cyclic
    /// graph can only consume the fuel, not hang.
    pub fn delete_subtree(&mut self, id: NodeId)
        requires
            old(self).wf(),
            id < old(self).nodes@.len(),
        ensures
            final(self).wf(),
            final(self).nodes@.len() == old(self).nodes@.len(),
            final(self).root == old(self).root,
    {
        let mut work: Vec<NodeId> = Vec::new();
        work.push(id);
        let mut fuel: usize = 0x1_0000;
        while fuel > 0
            invariant
                self.wf(),
                self.nodes@.len() == old(self).nodes@.len(),
                self.root == old(self).root,
                forall|k: int| 0 <= k < work@.len() ==> (#[trigger] work@[k]) < self.nodes@.len(),
            decreases fuel,
        {
            let next = match work.pop() {
                Some(n) => n,
                None => {
                    return;
                },
            };
            let m = self.nodes[next].children.len();
            let mut k: usize = 0;
            while k < m
                invariant
                    k <= m,
                    self.wf(),
                    next < self.nodes@.len(),
                    m == self.nodes@[next as int].children@.len(),
                    forall|j: int|
                        0 <= j < work@.len() ==> (#[trigger] work@[j]) < self.nodes@.len(),
                decreases m - k,
            {
                let c = self.nodes[next].children[k];
                work.push(c);
                k = k + 1;
            }
            self.kill_node(next);
            fuel = fuel - 1;
        }
    }

    /// The deepest node under `id` containing the point, children tried
    /// front-most first; a work list walk with bounded fuel.  A hit is
    /// only reported when the point lies inside `id`'s own rectangle, and
    /// a point outside it never hits.
    pub fn hit_test(&self, id: NodeId, x: isize, y: isize) -> (r: Option<NodeId>)
        requires
            self.wf(),
            id < self.nodes@.len(),
            -COORD_LIMIT <= x <= COORD_LIMIT,
            -COORD_LIMIT <= y <= COORD_LIMIT,
        ensures
            match r {
                Some(h) => h < self.nodes@.len() && self.nodes@[id as int].x <= x < self.nodes@[id as int].x
                    + self.nodes@[id as int].width && self.nodes@[id as int].y <= y
                    < self.nodes@[id as int].y + self.nodes@[id as int].height,
                None => true,
            },
            !(self.nodes@[id as int].x <= x < self.nodes@[id as int].x
                + self.nodes@[id as int].width && self.nodes@[id as int].y <= y
                < self.nodes@[id as int].y + self.nodes@[id as int].height) ==> r is None,
    {
        hit_test_in(self, id, x, y, 64)
    }

    /// Clamp a window's rectangle onto the visible desktop.
    pub fn adjust_safe_placement(&mut self, id: NodeId)
        requires
            old(self).wf(),
            id < old(self).nodes@.len(),
        ensures
            final(self).wf(),
            final(self).nodes@.len() == old(self).nodes@.len(),
            final(self).root == old(self).root,
            final(self).nodes@[id as int].element is Window ==> {
                let n = final(self).nodes@[id as int];
                0 <= n.x <= 1024 && 0 <= n.y <= 768 && n.width <= 1024 && n.height <= 768
            },
    {
        let is_window = match &self.nodes[id].element {
            GuiElement::Window(_) => true,
            _ => false,
        };
        if !is_window {
            return;
        }
        let window = &mut self.nodes[id];
        if window.x < 0 {
            window.x = 0;
        }
        if window.y < 0 {
            window.y = 0;
        }
        if window.x > 933 {
            window.x = 934;
        }
        if window.y > 743 {
            window.y = 743;
        }
        if window.width > 1024 {
            window.width = 1024;
        }
        if window.height > 768 {
            window.height = 768;
        }
        if window.x + window.width > 1023 {
            window.x = 1024 - window.width;
        }
        if window.y + window.height > 767 {
            window.y = 768 - window.height;
        }
        proof {
            assert forall|j: int| 0 <= j < self.nodes@.len() implies node_wf(
                #[trigger] self.nodes@[j],
                self.nodes@.len() as int,
            ) by {}
        }
    }

    /// Move `id` to the end of its parent's child list, so it draws last
    /// and shows on top.
    pub fn bring_to_front(&mut self, id: NodeId)
        requires
            old(self).wf(),
            id < old(self).nodes@.len(),
            old(self).nodes@[id as int].parent is Some,
        ensures
            final(self).wf(),
            final(self).nodes@.len() == old(self).nodes@.len(),
            final(self).root == old(self).root,
    {
        let parent = match self.nodes[id].parent {
            Some(p) => p,
            None => {
                return;
            },
        };
        let n = self.nodes[parent].children.len();
        let mut pos: usize = n;
        let mut k: usize = 0;
        while k < n
            invariant
                k <= n,
                self.wf(),
                parent < self.nodes@.len(),
                n == self.nodes@[parent as int].children@.len(),
                pos <= n,
            decreases n - k,
        {
            if self.nodes[parent].children[k] == id {
                pos = k;
                break;
            }
            k = k + 1;
        }
        if pos < n {
            let child_list = &mut self.nodes[parent];
            let item = child_list.children.remove(pos);
            child_list.children.push(item);
            proof {
                assert forall|j: int| 0 <= j < self.nodes@.len() implies node_wf(
                    #[trigger] self.nodes@[j],
                    self.nodes@.len() as int,
                ) by {
                    if j != parent as int {
                        assert(self.nodes@[j] == old(self).nodes@[j]);
                    }
                }
            }
        }
        let node = &mut self.nodes[id];
        node.dirty = true;
        proof {
            assert forall|j: int| 0 <= j < self.nodes@.len() implies node_wf(
                #[trigger] self.nodes@[j],
                self.nodes@.len() as int,
            ) by {}
        }
    }

    /// Mark every sibling window whose rectangle meets `win_id`'s for a
    /// redraw.
    pub fn mark_overlapping_windows_dirty(&mut self, win_id: NodeId)
        requires
            old(self).wf(),
            win_id < old(self).nodes@.len(),
        ensures
            final(self).wf(),
            final(self).nodes@.len() == old(self).nodes@.len(),
            final(self).root == old(self).root,
    {
        let x = self.nodes[win_id].x;
        let y = self.nodes[win_id].y;
        let w = self.nodes[win_id].width;
        let h = self.nodes[win_id].height;
        let root = self.root;
        let n = self.nodes[root].children.len();
        let mut k: usize = 0;
        while k < n
            invariant
                k <= n,
                self.wf(),
                root == self.root,
                root < self.nodes@.len(),
                win_id < self.nodes@.len(),
                n == self.nodes@[root as int].children@.len(),
                self.nodes@.len() == old(self).nodes@.len(),
                -COORD_LIMIT <= x <= COORD_LIMIT,
                -COORD_LIMIT <= y <= COORD_LIMIT,
                0 <= w <= 4096,
                0 <= h <= 4096,
            decreases n - k,
        {
            let other = self.nodes[root].children[k];
            if other != win_id {
                let nx = self.nodes[other].x;
                let ny = self.nodes[other].y;
                let nw = self.nodes[other].width;
                let nh = self.nodes[other].height;
                if rect_intersects(x, y, w, h, nx, ny, nw, nh) {
                    let node = &mut self.nodes[other];
                    node.dirty = true;
                    proof {
                        assert forall|j: int| 0 <= j < self.nodes@.len() implies node_wf(
                            #[trigger] self.nodes@[j],
                            self.nodes@.len() as int,
                        ) by {}
                    }
                    self.mark_dirty(other);
                }
            }
            k = k + 1;
        }
    }
}

/// Whether two rectangles share any point.
pub fn rect_intersects(
    a_x: isize,
    a_y: isize,
    a_w: isize,
    a_h: isize,
    b_x: isize,
    b_y: isize,
    b_w: isize,
    b_h: isize,
) -> (r: bool)
    requires
        -COORD_LIMIT <= a_x <= COORD_LIMIT,
        -COORD_LIMIT <= a_y <= COORD_LIMIT,
        0 <= a_w <= 4096,
        0 <= a_h <= 4096,
        -COORD_LIMIT <= b_x <= COORD_LIMIT,
        -COORD_LIMIT <= b_y <= COORD_LIMIT,
        0 <= b_w <= 4096,
        0 <= b_h <= 4096,
    ensures
        r == !(a_x + a_w <= b_x || b_x + b_w <= a_x || a_y + a_h <= b_y || b_y + b_h <= a_y),
{
    !(a_x + a_w <= b_x || b_x + b_w <= a_x || a_y + a_h <= b_y || b_y + b_h <= a_y)
}

/// The bounded-depth hit test: the point is translated into each node's
/// coordinates, and the rearmost matching child wins.
fn hit_test_in(gui: &GuiSystem, id: NodeId, x: isize, y: isize, depth: usize) -> (r: Option<
    NodeId,
>)
    requires
        gui.wf(),
        id < gui.nodes@.len(),
        -16 * COORD_LIMIT <= x <= 16 * COORD_LIMIT,
        -16 * COORD_LIMIT <= y <= 16 * COORD_LIMIT,
        depth <= 64,
    ensures
        match r {
            Some(h) => h < gui.nodes@.len() && gui.nodes@[id as int].x <= x < gui.nodes@[id as int].x
                + gui.nodes@[id as int].width && gui.nodes@[id as int].y <= y
                < gui.nodes@[id as int].y + gui.nodes@[id as int].height,
            None => true,
        },
        !(gui.nodes@[id as int].x <= x < gui.nodes@[id as int].x + gui.nodes@[id as int].width
            && gui.nodes@[id as int].y <= y < gui.nodes@[id as int].y
            + gui.nodes@[id as int].height) ==> r is None,
    decreases depth,
{
    if depth == 0 {
        return None;
    }
    let node = &gui.nodes[id];
    if x < node.x || y < node.y || x >= node.x + node.width || y >= node.y + node.height {
        return None;
    }
    let lx = x - node.x;
    let ly = y - node.y;
    let n = node.children.len();
    let mut k: usize = n;
    while k > 0
        invariant
            k <= n,
            gui.wf(),
            id < gui.nodes@.len(),
            n == gui.nodes@[id as int].children@.len(),
            -17 * COORD_LIMIT <= lx <= 17 * COORD_LIMIT,
            -17 * COORD_LIMIT <= ly <= 17 * COORD_LIMIT,
            1 <= depth <= 64,
            gui.nodes@[id as int].x <= x < gui.nodes@[id as int].x + gui.nodes@[id as int].width,
            gui.nodes@[id as int].y <= y < gui.nodes@[id as int].y + gui.nodes@[id as int].height,
        decreases k,
    {
        k = k - 1;
        let child_id = gui.nodes[id].children[k];
        let clx = if lx < -16 * COORD_LIMIT {
            -16 * COORD_LIMIT
        } else if lx > 16 * COORD_LIMIT {
            16 * COORD_LIMIT
        } else {
            lx
        };
        let cly = if ly < -16 * COORD_LIMIT {
            -16 * COORD_LIMIT
        } else if ly > 16 * COORD_LIMIT {
            16 * COORD_LIMIT
        } else {
            ly
        };
        proof {
            assert(node_wf(gui.nodes@[id as int], gui.nodes@.len() as int));
            assert(gui.nodes@[id as int].children@[k as int] < gui.nodes@.len());
        }
        match hit_test_in(gui, child_id, clx, cly, depth - 1) {
            Some(hit) => {
                return Some(hit);
            },
            None => {},
        }
    }
    Some(id)
}

impl GuiSystem {
    /// Build a window with its minimize, maximize and close buttons, and
    /// return the window's node.
    pub fn create_window(&mut self, title: &'static str, x: isize, y: isize, w: isize, h: isize)
        -> (id: NodeId)
        requires
            old(self).wf(),
            old(self).nodes@.len() + 4 <= 0x1_0000,
            -COORD_LIMIT <= x <= COORD_LIMIT,
            -COORD_LIMIT <= y <= COORD_LIMIT,
            90 <= w <= 4096,
            24 <= h <= 4096,
        ensures
            final(self).wf(),
            id < final(self).nodes@.len(),
    {
        let root = self.root;
        let win_id = self.add_node(
            root,
            GuiElement::Window(
                WindowData {
                    title,
                    minimized_x: x,
                    minimized_y: y,
                    minimized_width: w,
                    minimized_height: h,
                },
            ),
            x,
            y,
            w,
            h,
        );
        let bw: isize = 20;
        let bh: isize = 18;
        let close_x = w - bw - 4;
        let max_x = close_x - bw - 2;
        let min_x = max_x - bw - 2;
        let by: isize = 3;
        self.add_node(
            win_id,
            GuiElement::Button(ButtonData::new("-", Some(ButtonAction::Minimize))),
            min_x,
            by,
            bw,
            bh,
        );
        self.add_node(
            win_id,
            GuiElement::Button(ButtonData::new("+", Some(ButtonAction::Maximize))),
            max_x,
            by,
            bw,
            bh,
        );
        self.add_node(
            win_id,
            GuiElement::Button(ButtonData::new("X", Some(ButtonAction::Close))),
            close_x,
            by,
            bw,
            bh,
        );
        win_id
    }

    /// Draw the whole tree into the framebuffer.
    pub fn draw(&mut self, fb: &mut Framebuffer)
        requires
            old(self).wf(),
            old(fb).wf(),
        ensures
            final(self).wf(),
            final(fb).wf(),
            final(fb).same_geometry(*old(fb)),
    {
        let root = self.root;
        self.draw_node(root, 0, 0, fb);
    }

    /// Draw the node `id` (if dirty) and everything below it, each child
    /// offset by its parent's position; a work list walk with bounded
    /// fuel, so a cyclic graph cannot hang it.
    pub fn draw_node(&mut self, id: NodeId, ox: isize, oy: isize, fb: &mut Framebuffer)
        requires
            old(self).wf(),
            old(fb).wf(),
            id < old(self).nodes@.len(),
            -COORD_LIMIT <= ox <= COORD_LIMIT,
            -COORD_LIMIT <= oy <= COORD_LIMIT,
        ensures
            final(self).wf(),
            final(fb).wf(),
            final(fb).same_geometry(*old(fb)),
    {
        let mut work: Vec<(NodeId, isize, isize)> = Vec::new();
        work.push((id, ox, oy));
        let mut fuel: usize = 0x1_0000;
        while fuel > 0
            invariant
                self.wf(),
                fb.wf(),
                fb.same_geometry(*old(fb)),
                forall|k: int|
                    0 <= k < work@.len() ==> (#[trigger] work@[k]).0 < self.nodes@.len() && -2
                        * COORD_LIMIT <= work@[k].1 <= 2 * COORD_LIMIT && -2 * COORD_LIMIT
                        <= work@[k].2 <= 2 * COORD_LIMIT,
            decreases fuel,
        {
            let (nid, nox, noy) = match work.pop() {
                Some(t) => t,
                None => {
                    return;
                },
            };
            self.adjust_safe_placement(nid);
            let ax = clamp_coord(nox + self.nodes[nid].x);
            let ay = clamp_coord(noy + self.nodes[nid].y);
            let width = self.nodes[nid].width;
            let height = self.nodes[nid].height;
            if self.nodes[nid].dirty {
                match &self.nodes[nid].element {
                    GuiElement::Window(wd) => {
                        draw_window(ax, ay, width, height, wd, fb);
                    },
                    GuiElement::Button(b) => {
                        draw_button(ax, ay, width, height, b, fb);
                    },
                    GuiElement::Terminal(t) => {
                        draw_terminal(ax, ay, width, height, t, fb);
                    },
                    GuiElement::Desktop(_) => {},
                    GuiElement::Dead => {},
                }
                let node = &mut self.nodes[nid];
                node.dirty = false;
                proof {
                    assert forall|j: int| 0 <= j < self.nodes@.len() implies node_wf(
                        #[trigger] self.nodes@[j],
                        self.nodes@.len() as int,
                    ) by {}
                }
            }
            let m = self.nodes[nid].children.len();
            let mut k: usize = 0;
            let cx = ax;
            let cy = ay;
            while k < m
                invariant
                    k <= m,
                    self.wf(),
                    nid < self.nodes@.len(),
                    m == self.nodes@[nid as int].children@.len(),
                    -2 * COORD_LIMIT <= cx <= 2 * COORD_LIMIT,
                    -2 * COORD_LIMIT <= cy <= 2 * COORD_LIMIT,
                    forall|j: int|
                        0 <= j < work@.len() ==> (#[trigger] work@[j]).0 < self.nodes@.len() && -2
                            * COORD_LIMIT <= work@[j].1 <= 2 * COORD_LIMIT && -2 * COORD_LIMIT
                            <= work@[j].2 <= 2 * COORD_LIMIT,
                decreases m - k,
            {
                let c = self.nodes[nid].children[k];
                work.push((c, cx, cy));
                k = k + 1;
            }
            fuel = fuel - 1;
        }
    }
}

/// Paint a window: body, border, title bar and title text.
pub fn draw_window(x: isize, y: isize, w: isize, h: isize, data: &WindowData, fb: &mut Framebuffer)
    requires
        old(fb).wf(),
        -2 * COORD_LIMIT <= x <= 2 * COORD_LIMIT,
        -2 * COORD_LIMIT <= y <= 2 * COORD_LIMIT,
        0 <= w <= 4096,
        0 <= h <= 4096,
    ensures
        final(fb).wf(),
        final(fb).same_geometry(*old(fb)),
{
    let bg: u32 = 0xC0C0C0;
    let border: u32 = 0x606060;
    let bar: u32 = 0x000080;
    let text: u32 = 0xFFFFFF;
    let cx = clamp_coord(x);
    let cy = clamp_coord(y);
    fb.fill_rect(cx, cy, w, h, bg);
    fb.draw_rect(cx, cy, w, h, border);
    let title_h: isize = 24;
    fb.fill_rect(cx + 1, cy + 1, w - 2, title_h, bar);
    fb.draw_string(cx + 5, cy + 5, data.title, text);
}

/// Paint a button, inset by one pixel while pressed.
pub fn draw_button(x: isize, y: isize, w: isize, h: isize, b: &ButtonData, fb: &mut Framebuffer)
    requires
        old(fb).wf(),
        -2 * COORD_LIMIT <= x <= 2 * COORD_LIMIT,
        -2 * COORD_LIMIT <= y <= 2 * COORD_LIMIT,
        0 <= w <= 4096,
        0 <= h <= 4096,
    ensures
        final(fb).wf(),
        final(fb).same_geometry(*old(fb)),
{
    let bg: u32 = 0xC0C0C0;
    let dark: u32 = 0x606060;
    let outline: u32 = 0x000000;
    let cx = clamp_coord(x);
    let cy = clamp_coord(y);
    if b.state == ButtonState::Pressed {
        fb.fill_rect(cx + 1, cy + 1, w, h, bg);
        fb.draw_rect(cx + 1, cy + 1, w, h, dark);
        fb.draw_string(cx + 7, cy + 2, b.text, 0x000000);
    } else {
        fb.fill_rect(cx, cy, w, h, bg);
        fb.draw_rect(cx, cy, w, h, outline);
        fb.draw_string(cx + 6, cy + 1, b.text, 0x000000);
    }
}

/// Paint a terminal: black body and its visible buffer lines.
pub fn draw_terminal(
    x: isize,
    y: isize,
    w: isize,
    h: isize,
    term: &TerminalData,
    fb: &mut Framebuffer,
)
    requires
        old(fb).wf(),
        -2 * COORD_LIMIT <= x <= 2 * COORD_LIMIT,
        -2 * COORD_LIMIT <= y <= 2 * COORD_LIMIT,
        0 <= w <= 4096,
        0 <= h <= 4096,
    ensures
        final(fb).wf(),
        final(fb).same_geometry(*old(fb)),
{
    let cx = clamp_coord(x);
    let cy0 = clamp_coord(y);
    fb.fill_rect(cx, cy0, w, h, 0x000000);
    let mut cy = cy0;
    let n = term.buffer.len();
    let mut li: usize = 0;
    while li < n
        invariant
            li <= n,
            n == term.buffer@.len(),
            fb.wf(),
            fb.same_geometry(*old(fb)),
            -0x7_0000 <= cx <= 0x7_0000,
            -0x7_0000 <= cy <= 0x7_0000 + 16,
            -0x7_0000 <= cy0 <= 0x7_0000,
            0 <= h <= 4096,
        decreases n - li,
    {
        let line = &term.buffer[li];
        let mut bi: usize = 0;
        let m = line.len();
        let mut gx = cx + 2;
        while bi < m && bi < 512
            invariant
                bi <= m,
                bi <= 512,
                m == line@.len(),
                fb.wf(),
                fb.same_geometry(*old(fb)),
                -0x7_0000 <= cx <= 0x7_0000,
                -0x7_0000 <= cy <= 0x7_0000 + 16,
                gx == cx + 2 + 8 * (bi as int),
            decreases m - bi,
        {
            if cy <= COORD_LIMIT - 16 && gx <= COORD_LIMIT - 8 {
                fb.draw_char(gx, cy, line[bi], term.text_color);
            }
            gx = gx + 8;
            bi = bi + 1;
        }
        if cy > 0x7_0000 {
            return;
        }
        cy = cy + 16;
        if cy >= cy0 + h {
            return;
        }
        li = li + 1;
    }
}

/// A coordinate pulled back into the drawing range.
pub fn clamp_coord(v: isize) -> (r: isize)
    ensures
        -0x7_0000 <= r <= 0x7_0000,
        -0x7_0000 <= v <= 0x7_0000 ==> r == v,
{
    if v < -0x7_0000 {
        -0x7_0000
    } else if v > 0x7_0000 {
        0x7_0000
    } else {
        v
    }
}

} // verus!
