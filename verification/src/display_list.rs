//! The list of displays shown in the displays panel: which displays there
//! are, which one is selected, and the ids given to new ones.

use vstd::prelude::*;
use crate::text::{str_eq, to_lowercase, spec_to_lowercase};

verus! {

/// Kinds of display offered by the panel.
#[derive(Debug, Clone, Copy, PartialEq, Eq, Structural, Default)]
pub enum DisplayType {
    #[default]
    Grid,
    Axes,
    PointCloud,
    Markers,
    TF,
    LaserScan,
    Path,
    Pose,
}

/// The name shown for a display type.
pub open spec fn display_type_name(t: DisplayType) -> Seq<char> {
    match t {
        DisplayType::Grid => "Grid"@,
        DisplayType::Axes => "Axes"@,
        DisplayType::PointCloud => "Point Cloud"@,
        DisplayType::Markers => "Markers"@,
        DisplayType::TF => "TF"@,
        DisplayType::LaserScan => "LaserScan"@,
        DisplayType::Path => "Path"@,
        DisplayType::Pose => "Pose"@,
    }
}

/// The display type that a lower-case name selects; unknown names select
/// markers.
pub open spec fn type_of_lowercase(l: Seq<char>) -> DisplayType {
    if l == "grid"@ {
        DisplayType::Grid
    } else if l == "axes"@ {
        DisplayType::Axes
    } else if l == "pointcloud"@ || l == "point_cloud"@ || l == "points"@ {
        DisplayType::PointCloud
    } else if l == "markers"@ || l == "marker"@ {
        DisplayType::Markers
    } else if l == "tf"@ || l == "transform"@ {
        DisplayType::TF
    } else if l == "laserscan"@ || l == "laser_scan"@ || l == "laser"@ {
        DisplayType::LaserScan
    } else if l == "path"@ || l == "trajectory"@ {
        DisplayType::Path
    } else if l == "pose"@ || l == "odometry"@ {
        DisplayType::Pose
    } else {
        DisplayType::Markers
    }
}

impl DisplayType {
    /// The display type named by a lower-case name.
    pub fn from_lowercase(l: &str) -> (r: DisplayType)
        ensures
            r == type_of_lowercase(l@),
    {
        if str_eq(l, "grid") {
            DisplayType::Grid
        } else if str_eq(l, "axes") {
            DisplayType::Axes
        } else if str_eq(l, "pointcloud") || str_eq(l, "point_cloud") || str_eq(l, "points") {
            DisplayType::PointCloud
        } else if str_eq(l, "markers") || str_eq(l, "marker") {
            DisplayType::Markers
        } else if str_eq(l, "tf") || str_eq(l, "transform") {
            DisplayType::TF
        } else if str_eq(l, "laserscan") || str_eq(l, "laser_scan") || str_eq(l, "laser") {
            DisplayType::LaserScan
        } else if str_eq(l, "path") || str_eq(l, "trajectory") {
            DisplayType::Path
        } else if str_eq(l, "pose") || str_eq(l, "odometry") {
            DisplayType::Pose
        } else {
            DisplayType::Markers
        }
    }

    /// The display type named by `s`, in any case; unknown names select
    /// markers.
    pub fn from_str(s: &str) -> (r: DisplayType)
        ensures
            r == type_of_lowercase(spec_to_lowercase(s@)),
    {
        let l = to_lowercase(s);
        DisplayType::from_lowercase(l.as_str())
    }

    /// The name shown for this display type.
    pub fn name(&self) -> (r: &'static str)
        ensures
            r@ == display_type_name(*self),
    {
        match self {
            DisplayType::Grid => "Grid",
            DisplayType::Axes => "Axes",
            DisplayType::PointCloud => "Point Cloud",
            DisplayType::Markers => "Markers",
            DisplayType::TF => "TF",
            DisplayType::LaserScan => "LaserScan",
            DisplayType::Path => "Path",
            DisplayType::Pose => "Pose",
        }
    }

    /// Every display type, in the order of the "Add Display" menu.
    pub fn all() -> (r: Vec<DisplayType>)
        ensures
            r@ == seq![
                DisplayType::Grid,
                DisplayType::Axes,
                DisplayType::PointCloud,
                DisplayType::Markers,
                DisplayType::TF,
                DisplayType::LaserScan,
                DisplayType::Path,
                DisplayType::Pose,
            ],
    {
        vec![
            DisplayType::Grid,
            DisplayType::Axes,
            DisplayType::PointCloud,
            DisplayType::Markers,
            DisplayType::TF,
            DisplayType::LaserScan,
            DisplayType::Path,
            DisplayType::Pose,
        ]
    }
}

/// The bit pattern of the single-precision number 1.0.
pub open spec fn opaque_alpha() -> u32 {
    0x3f80_0000
}

/// What the panel knows of a display.
#[derive(Debug, Clone)]
pub struct DisplayInfo {
    /// Unique identifier
    pub id: u64,
    /// Display name (user-editable)
    pub name: String,
    /// Display type
    pub display_type: DisplayType,
    /// Whether enabled (visible in the viewer)
    pub enabled: bool,
    /// Status: 0=ok, 1=warning, 2=error
    pub status: u8,
    /// Status message
    pub status_message: Option<String>,
    /// Topic/entity path this display subscribes to
    pub topic: Option<String>,
    /// Color for rendering [r, g, b, a]
    pub color: [u8; 4],
    /// Alpha transparency (a single-precision number between 0 and 1, as its bits)
    pub alpha: u32,
}

/// `d` is what `DisplayInfo::new(id, t)` makes: enabled, OK, white, opaque,
/// with no topic and the type's name.
pub open spec fn fresh_info(d: DisplayInfo, id: u64, t: DisplayType) -> bool {
    &&& d.id == id
    &&& d.name@ == display_type_name(t)
    &&& d.display_type == t
    &&& d.enabled
    &&& d.status == 0
    &&& d.status_message is None
    &&& d.topic is None
    &&& d.color@ == seq![255u8, 255u8, 255u8, 255u8]
    &&& d.alpha == opaque_alpha()
}

impl Default for DisplayInfo {
    fn default() -> (r: Self)
        ensures
            r.id == 0,
            r.name@ == "Display"@,
            r.display_type == DisplayType::Markers,
            r.enabled,
            r.status == 0,
            r.status_message is None,
            r.topic is None,
            r.color@ == seq![255u8, 255u8, 255u8, 255u8],
            r.alpha == opaque_alpha(),
    {
        DisplayInfo {
            id: 0,
            name: "Display".to_owned(),
            display_type: DisplayType::Markers,
            enabled: true,
            status: 0,
            status_message: None,
            topic: None,
            color: [255, 255, 255, 255],
            alpha: 0x3f80_0000,
        }
    }
}

impl DisplayInfo {
    /// A new enabled display of type `display_type`, named after its type.
    pub fn new(id: u64, display_type: DisplayType) -> (r: DisplayInfo)
        ensures
            fresh_info(r, id, display_type),
    {
        DisplayInfo {
            id,
            name: display_type.name().to_owned(),
            display_type,
            enabled: true,
            status: 0,
            status_message: None,
            topic: None,
            color: [255, 255, 255, 255],
            alpha: 0x3f80_0000,
        }
    }

    /// The same display under another name.
    pub fn with_name(self, name: &str) -> (r: DisplayInfo)
        ensures
            r == (DisplayInfo { name: r.name, ..self }),
            r.name@ == name@,
    {
        DisplayInfo { name: name.to_owned(), ..self }
    }

    /// The same display, subscribed to `topic`.
    pub fn with_topic(self, topic: &str) -> (r: DisplayInfo)
        ensures
            r == (DisplayInfo { topic: r.topic, ..self }),
            r.topic matches Some(t) && t@ == topic@,
    {
        DisplayInfo { topic: Some(topic.to_owned()), ..self }
    }

    /// The same display in another color.
    pub fn with_color(self, color: [u8; 4]) -> (r: DisplayInfo)
        ensures
            r == (DisplayInfo { color, ..self }),
    {
        DisplayInfo { color, ..self }
    }
}


/// The position of the first display from `i` on whose id is `id`.
pub open spec fn find_from(s: Seq<DisplayInfo>, id: u64, i: int) -> Option<int>
    decreases s.len() - i,
{
    if i < 0 || i >= s.len() {
        None
    } else if s[i].id == id {
        Some(i)
    } else {
        find_from(s, id, i + 1)
    }
}

/// The position of the first display whose id is `id`, if any.
pub open spec fn position_of_id(s: Seq<DisplayInfo>, id: u64) -> Option<int> {
    find_from(s, id, 0)
}

/// What `find_from` finds is the first match from `i` on; when it finds
/// nothing there is no match from `i` on.
pub proof fn lemma_find_from(s: Seq<DisplayInfo>, id: u64, i: int)
    requires
        0 <= i,
    ensures
        match find_from(s, id, i) {
            Some(p) => i <= p < s.len() && s[p].id == id && forall|j: int|
                i <= j < p ==> s[j].id != id,
            None => forall|j: int| i <= j < s.len() ==> s[j].id != id,
        },
    decreases s.len() - i,
{
    if i < s.len() && s[i].id != id {
        lemma_find_from(s, id, i + 1);
    }
}

/// The display that `sel` selects in `s`, if it selects one there.
pub open spec fn selected_in(s: Seq<DisplayInfo>, sel: Option<usize>) -> Option<DisplayInfo> {
    match sel {
        Some(i) => if i < s.len() {
            Some(s[i as int])
        } else {
            None
        },
        None => None,
    }
}

/// The selection after the display at `pos` is removed: cleared if it was
/// that display, moved down one if it was after it.
pub open spec fn selection_after_remove(sel: Option<usize>, pos: int) -> Option<usize> {
    match sel {
        Some(i) => if i == pos {
            None
        } else if i > pos {
            Some((i - 1) as usize)
        } else {
            Some(i)
        },
        None => None,
    }
}

/// The largest id in `s`; zero for no displays.
pub open spec fn max_id(s: Seq<DisplayInfo>) -> u64
    decreases s.len(),
{
    if s.len() == 0 {
        0
    } else if s.last().id > max_id(s.drop_last()) {
        s.last().id
    } else {
        max_id(s.drop_last())
    }
}

/// The status shown for a status code.
pub open spec fn status_text(status: u8) -> Seq<char> {
    if status == 0 {
        "OK"@
    } else if status == 1 {
        "WARN"@
    } else {
        "ERR"@
    }
}

/// The line shown for a display.
pub open spec fn display_line(d: DisplayInfo, selected: bool) -> Seq<char> {
    (if selected {
        " >"@
    } else {
        "  "@
    }) + (if d.enabled {
        "[x]"@
    } else {
        "[ ]"@
    }) + " "@ + d.name@ + " - "@ + display_type_name(d.display_type) + " ["@ + status_text(
        d.status,
    ) + "]"@
}

/// The lines of the first `n` displays, one per line.
pub open spec fn list_text(s: Seq<DisplayInfo>, sel: Option<usize>, n: nat) -> Seq<char>
    decreases n,
{
    if n == 0 {
        Seq::empty()
    } else if n == 1 {
        display_line(s[0], sel == Some(0usize))
    } else {
        list_text(s, sel, (n - 1) as nat) + "\n"@ + display_line(
            s[n - 1],
            sel == Some((n - 1) as usize),
        )
    }
}

/// The status shown for a status code.
fn status_str(status: u8) -> (r: &'static str)
    ensures
        r@ == status_text(status),
{
    if status == 0 {
        "OK"
    } else if status == 1 {
        "WARN"
    } else {
        "ERR"
    }
}

/// The line shown for a display.
fn line_of(d: &DisplayInfo, selected: bool) -> (r: String)
    ensures
        r@ == display_line(*d, selected),
{
    let mut t = if selected {
        " >".to_owned()
    } else {
        "  ".to_owned()
    };
    t.append(
        if d.enabled {
            "[x]"
        } else {
            "[ ]"
        },
    );
    t.append(" ");
    t.append(d.name.as_str());
    t.append(" - ");
    t.append(d.display_type.name());
    t.append(" [");
    t.append(status_str(d.status));
    t.append("]");
    t
}

/// The displays panel's list: the displays, the selected one, and the next
/// id to give out.
#[derive(Debug)]
pub struct DisplaysPanel {
    displays: Vec<DisplayInfo>,
    selected_index: Option<usize>,
    next_id: u64,
    initialized: bool,
}

impl DisplaysPanel {
    /// The displays, in order.
    pub closed spec fn spec_displays(&self) -> Seq<DisplayInfo> {
        self.displays@
    }

    /// The selected position, which need not lie in the list.
    pub closed spec fn spec_selected(&self) -> Option<usize> {
        self.selected_index
    }

    /// The next id to give out.
    pub closed spec fn spec_next_id(&self) -> u64 {
        self.next_id
    }

    /// Whether the default displays were put in.
    pub closed spec fn spec_initialized(&self) -> bool {
        self.initialized
    }

    /// An empty panel that has not yet put in its default displays.
    pub fn new() -> (r: DisplaysPanel)
        ensures
            r.spec_displays() == Seq::<DisplayInfo>::empty(),
            r.spec_selected() is None,
            r.spec_next_id() == 0,
            !r.spec_initialized(),
    {
        DisplaysPanel { displays: Vec::new(), selected_index: None, next_id: 0, initialized: false }
    }

    /// Give out the next id.
    fn next_id(&mut self) -> (r: u64)
        requires
            old(self).next_id < u64::MAX,
        ensures
            r == old(self).next_id,
            final(self).next_id == old(self).next_id + 1,
            final(self).displays == old(self).displays,
            final(self).selected_index == old(self).selected_index,
            final(self).initialized == old(self).initialized,
    {
        let id = self.next_id;
        self.next_id = self.next_id + 1;
        id
    }

    /// Replace the list by the default displays: a grid and axes.
    pub fn init_default_displays(&mut self)
        requires
            old(self).spec_next_id() < u64::MAX - 1,
        ensures
            final(self).spec_displays().len() == 2,
            fresh_info(final(self).spec_displays()[0], old(self).spec_next_id(), DisplayType::Grid),
            fresh_info(
                final(self).spec_displays()[1],
                (old(self).spec_next_id() + 1) as u64,
                DisplayType::Axes,
            ),
            final(self).spec_next_id() == old(self).spec_next_id() + 2,
            final(self).spec_selected() == old(self).spec_selected(),
            final(self).spec_initialized() == old(self).spec_initialized(),
    {
        let a = self.next_id();
        let grid = DisplayInfo::new(a, DisplayType::Grid);
        let b = self.next_id();
        let axes = DisplayInfo::new(b, DisplayType::Axes);
        self.displays = vec![grid, axes];
    }

    /// Before the first drawing, put in the default displays once.
    pub fn ensure_default_displays(&mut self)
        requires
            !old(self).spec_initialized() ==> old(self).spec_next_id() < u64::MAX - 1,
        ensures
            final(self).spec_initialized(),
            old(self).spec_initialized() ==> *final(self) == *old(self),
            !old(self).spec_initialized() ==> {
                &&& final(self).spec_displays().len() == 2
                &&& fresh_info(
                    final(self).spec_displays()[0],
                    old(self).spec_next_id(),
                    DisplayType::Grid,
                )
                &&& fresh_info(
                    final(self).spec_displays()[1],
                    (old(self).spec_next_id() + 1) as u64,
                    DisplayType::Axes,
                )
                &&& final(self).spec_next_id() == old(self).spec_next_id() + 2
                &&& final(self).spec_selected() == old(self).spec_selected()
            },
    {
        if !self.initialized {
            self.initialized = true;
            self.init_default_displays();
        }
    }

    /// Add a new display of type `display_type`; its id is returned.
    pub fn add_display(&mut self, display_type: DisplayType) -> (r: u64)
        requires
            old(self).spec_next_id() < u64::MAX,
        ensures
            r == old(self).spec_next_id(),
            final(self).spec_next_id() == old(self).spec_next_id() + 1,
            final(self).spec_displays().len() == old(self).spec_displays().len() + 1,
            final(self).spec_displays().drop_last() == old(self).spec_displays(),
            fresh_info(final(self).spec_displays().last(), r, display_type),
            final(self).spec_selected() == old(self).spec_selected(),
            final(self).spec_initialized() == old(self).spec_initialized(),
    {
        let id = self.next_id();
        let display = DisplayInfo::new(id, display_type);
        self.displays.push(display);
        assert(self.displays@.drop_last() =~= old(self).displays@);
        id
    }

    /// Add a display as given; one whose id is zero gets the next id. The
    /// display's id is returned.
    pub fn add_display_info(&mut self, info: DisplayInfo) -> (r: u64)
        requires
            info.id == 0 ==> old(self).spec_next_id() < u64::MAX,
        ensures
            r == if info.id == 0 {
                old(self).spec_next_id()
            } else {
                info.id
            },
            final(self).spec_next_id() == if info.id == 0 {
                (old(self).spec_next_id() + 1) as u64
            } else {
                old(self).spec_next_id()
            },
            final(self).spec_displays() == old(self).spec_displays().push(
                DisplayInfo { id: r, ..info },
            ),
            final(self).spec_selected() == old(self).spec_selected(),
            final(self).spec_initialized() == old(self).spec_initialized(),
    {
        let mut info = info;
        if info.id == 0 {
            info.id = self.next_id();
        }
        let id = info.id;
        self.displays.push(info);
        id
    }

    /// The position of the first display with id `id`.
    fn position(&self, id: u64) -> (r: Option<usize>)
        ensures
            match r {
                Some(p) => position_of_id(self.displays@, id) == Some(p as int),
                None => position_of_id(self.displays@, id) is None,
            },
    {
        let mut i: usize = 0;
        while i < self.displays.len()
            invariant
                i <= self.displays@.len(),
                position_of_id(self.displays@, id) == find_from(self.displays@, id, i as int),
            decreases self.displays@.len() - i,
        {
            if self.displays[i].id == id {
                return Some(i);
            }
            i = i + 1;
        }
        None
    }

    /// Remove the first display with id `id`; whether there was one. The
    /// selection stays on the display it was on, or is cleared if that
    /// display went.
    pub fn remove_display(&mut self, id: u64) -> (r: bool)
        ensures
            r == position_of_id(old(self).spec_displays(), id) is Some,
            match position_of_id(old(self).spec_displays(), id) {
                Some(p) => {
                    &&& final(self).spec_displays() == old(self).spec_displays().remove(p)
                    &&& final(self).spec_selected() == selection_after_remove(
                        old(self).spec_selected(),
                        p,
                    )
                },
                None => {
                    &&& final(self).spec_displays() == old(self).spec_displays()
                    &&& final(self).spec_selected() == old(self).spec_selected()
                },
            },
            final(self).spec_next_id() == old(self).spec_next_id(),
            final(self).spec_initialized() == old(self).spec_initialized(),
    {
        proof {
            lemma_find_from(self.displays@, id, 0);
        }
        match self.position(id) {
            Some(pos) => {
                self.displays.remove(pos);
                match self.selected_index {
                    Some(sel) => {
                        if sel == pos {
                            self.selected_index = None;
                        } else if sel > pos {
                            self.selected_index = Some(sel - 1);
                        }
                    },
                    None => {},
                }
                true
            },
            None => false,
        }
    }

    /// Enable or disable the first display with id `id`, if there is one.
    pub fn set_display_enabled(&mut self, id: u64, enabled: bool)
        ensures
            match position_of_id(old(self).spec_displays(), id) {
                Some(p) => final(self).spec_displays() == old(self).spec_displays().update(
                    p,
                    DisplayInfo { enabled, ..old(self).spec_displays()[p] },
                ),
                None => final(self).spec_displays() == old(self).spec_displays(),
            },
            final(self).spec_selected() == old(self).spec_selected(),
            final(self).spec_next_id() == old(self).spec_next_id(),
            final(self).spec_initialized() == old(self).spec_initialized(),
    {
        proof {
            lemma_find_from(self.displays@, id, 0);
        }
        if let Some(pos) = self.position(id) {
            self.displays[pos].enabled = enabled;
        }
    }

    /// Set the status of the first display with id `id`, if there is one.
    pub fn set_display_status(&mut self, id: u64, status: u8, message: Option<String>)
        ensures
            match position_of_id(old(self).spec_displays(), id) {
                Some(p) => final(self).spec_displays() == old(self).spec_displays().update(
                    p,
                    DisplayInfo { status, status_message: message, ..old(self).spec_displays()[p] },
                ),
                None => final(self).spec_displays() == old(self).spec_displays(),
            },
            final(self).spec_selected() == old(self).spec_selected(),
            final(self).spec_next_id() == old(self).spec_next_id(),
            final(self).spec_initialized() == old(self).spec_initialized(),
    {
        proof {
            lemma_find_from(self.displays@, id, 0);
        }
        if let Some(pos) = self.position(id) {
            self.displays[pos].status = status;
            self.displays[pos].status_message = message;
        }
    }


    /// Replace the list; the next id is then one past the largest id, when
    /// there is a display.
    pub fn set_displays(&mut self, displays: Vec<DisplayInfo>)
        requires
            displays@.len() > 0 ==> max_id(displays@) < u64::MAX,
        ensures
            final(self).spec_displays() == displays@,
            final(self).spec_next_id() == if displays@.len() > 0 {
                (max_id(displays@) + 1) as u64
            } else {
                old(self).spec_next_id()
            },
            final(self).spec_selected() == old(self).spec_selected(),
            final(self).spec_initialized() == old(self).spec_initialized(),
    {
        self.displays = displays;
        if self.displays.len() > 0 {
            let mut m: u64 = self.displays[0].id;
            let mut i: usize = 1;
            proof {
                assert(self.displays@.take(1).drop_last() =~= Seq::<DisplayInfo>::empty());
                assert(self.displays@.take(1).last() == self.displays@[0]);
                assert(max_id(Seq::<DisplayInfo>::empty()) == 0);
                assert(max_id(self.displays@.take(1)) == self.displays@[0].id);
            }
            while i < self.displays.len()
                invariant
                    1 <= i <= self.displays@.len(),
                    m == max_id(self.displays@.take(i as int)),
                decreases self.displays@.len() - i,
            {
                proof {
                    assert(self.displays@.take(i as int + 1).drop_last() =~= self.displays@.take(
                        i as int,
                    ));
                }
                if self.displays[i].id > m {
                    m = self.displays[i].id;
                }
                i = i + 1;
            }
            proof {
                assert(self.displays@.take(i as int) =~= self.displays@);
            }
            self.next_id = m + 1;
        }
    }

    /// The id of the selected display, if the selection lies in the list.
    pub fn selected_display_id(&self) -> (r: Option<u64>)
        ensures
            r == match selected_in(self.spec_displays(), self.spec_selected()) {
                Some(d) => Some(d.id),
                None => None,
            },
    {
        match self.selected_index {
            Some(i) => if i < self.displays.len() {
                Some(self.displays[i].id)
            } else {
                None
            },
            None => None,
        }
    }

    /// The selected display, if the selection lies in the list.
    pub fn selected_display(&self) -> (r: Option<&DisplayInfo>)
        ensures
            match r {
                Some(d) => selected_in(self.spec_displays(), self.spec_selected()) == Some(*d),
                None => selected_in(self.spec_displays(), self.spec_selected()) is None,
            },
    {
        match self.selected_index {
            Some(i) => if i < self.displays.len() {
                Some(&self.displays[i])
            } else {
                None
            },
            None => None,
        }
    }

    /// Select the first display with id `id`, if there is one.
    pub fn select(&mut self, id: u64)
        ensures
            final(self).spec_selected() == match position_of_id(old(self).spec_displays(), id) {
                Some(p) => Some(p as usize),
                None => old(self).spec_selected(),
            },
            final(self).spec_displays() == old(self).spec_displays(),
            final(self).spec_next_id() == old(self).spec_next_id(),
            final(self).spec_initialized() == old(self).spec_initialized(),
    {
        if let Some(pos) = self.position(id) {
            self.selected_index = Some(pos);
        }
    }

    /// Clear the selection.
    pub fn deselect(&mut self)
        ensures
            final(self).spec_selected() is None,
            final(self).spec_displays() == old(self).spec_displays(),
            final(self).spec_next_id() == old(self).spec_next_id(),
            final(self).spec_initialized() == old(self).spec_initialized(),
    {
        self.selected_index = None;
    }

    /// The number of displays.
    pub fn display_count(&self) -> (r: usize)
        ensures
            r == self.spec_displays().len(),
    {
        self.displays.len()
    }

    /// The displays, in order.
    pub fn displays(&self) -> (r: &[DisplayInfo])
        ensures
            r@ == self.spec_displays(),
    {
        self.displays.as_slice()
    }

    /// The first display with id `id`, if there is one.
    pub fn get_display(&self, id: u64) -> (r: Option<&DisplayInfo>)
        ensures
            match position_of_id(self.spec_displays(), id) {
                Some(p) => r == Some(&self.spec_displays()[p]),
                None => r is None,
            },
    {
        proof {
            lemma_find_from(self.displays@, id, 0);
        }
        match self.position(id) {
            Some(pos) => Some(&self.displays[pos]),
            None => None,
        }
    }

    /// The list as text: one line per display, marking the selected one,
    /// whether it is enabled, its name, type and status.
    pub fn format_display_list(&self) -> (r: String)
        ensures
            r@ == list_text(self.spec_displays(), self.spec_selected(), self.spec_displays().len()),
    {
        let mut text = String::new();
        let mut i: usize = 0;
        while i < self.displays.len()
            invariant
                i <= self.displays@.len(),
                text@ == list_text(self.displays@, self.selected_index, i as nat),
            decreases self.displays@.len() - i,
        {
            if i > 0 {
                text.append("\n");
            }
            let line = line_of(&self.displays[i], self.selected_index == Some(i));
            text.append(line.as_str());
            proof {
                if i == 0 {
                    assert(text@ =~= list_text(self.displays@, self.selected_index, 1));
                } else {
                    assert(text@ =~= list_text(self.displays@, self.selected_index, (i + 1) as nat));
                }
            }
            i = i + 1;
        }
        text
    }
}


/// Removing a display leaves the selection on the display it was on; only
/// when the removed display was the selected one is nothing selected.
pub proof fn law_remove_keeps_selected_display(
    s: Seq<DisplayInfo>,
    sel: Option<usize>,
    pos: int,
)
    requires
        0 <= pos < s.len(),
    ensures
        selected_in(s.remove(pos), selection_after_remove(sel, pos)) == if sel matches Some(i)
            && i == pos {
            None
        } else {
            selected_in(s, sel)
        },
{
    match sel {
        Some(i) => {
            if i > pos && i < s.len() {
                assert(s.remove(pos)[i - 1] == s[i as int]);
            } else if i < pos {
                assert(s.remove(pos)[i as int] == s[i as int]);
            }
        },
        None => {},
    }
}

/// Every id in `s` is at most `max_id(s)`.
pub proof fn lemma_max_id(s: Seq<DisplayInfo>)
    ensures
        forall|j: int| 0 <= j < s.len() ==> s[j].id <= max_id(s),
    decreases s.len(),
{
    if s.len() > 0 {
        lemma_max_id(s.drop_last());
        assert forall|j: int| 0 <= j < s.len() implies s[j].id <= max_id(s) by {
            if j < s.len() - 1 {
                assert(s.drop_last()[j] == s[j]);
            }
        }
    }
}

/// After the list is replaced, the next id lies above every id in it.
pub proof fn law_next_id_fresh_after_set(s: Seq<DisplayInfo>)
    requires
        s.len() > 0,
        max_id(s) < u64::MAX,
    ensures
        forall|j: int| 0 <= j < s.len() ==> s[j].id < max_id(s) + 1,
{
    lemma_max_id(s);
}

/// When every id in the list lies below the next id, a display added with
/// the next id is the one found by that id, and every id still lies below
/// the following next id.
pub proof fn law_added_display_is_found(s: Seq<DisplayInfo>, next: u64, d: DisplayInfo)
    requires
        forall|j: int| 0 <= j < s.len() ==> s[j].id < next,
        d.id == next,
    ensures
        position_of_id(s.push(d), next) == Some(s.len() as int),
        forall|j: int| 0 <= j < s.push(d).len() ==> s.push(d)[j].id < next + 1,
{
    let t = s.push(d);
    lemma_find_from(t, next, 0);
    match position_of_id(t, next) {
        Some(p) => {
            if p < s.len() {
                assert(t[p] == s[p]);
            }
        },
        None => {
            assert(t[s.len() as int] == d);
        },
    }
}

} // verus!
