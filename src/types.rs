use vstd::prelude::*;
use vstd::string::StringExecFns;

verus! {

/// An axis-aligned rectangle in caller-defined integer units; `y` grows downward.
#[derive(Debug, Clone, Copy, PartialEq, Eq, Structural)]
pub struct Rect {
    pub x: i32,
    pub y: i32,
    pub width: i32,
    pub height: i32,
}

impl Rect {
    /// Twice the horizontal coordinate of the centre, so that it stays exact.
    pub open spec fn center2_x(self) -> int {
        2 * self.x + self.width
    }

    /// Twice the vertical coordinate of the centre.
    pub open spec fn center2_y(self) -> int {
        2 * self.y + self.height
    }

    /// The centre, doubled on both axes: `(2x + width, 2y + height)`.
    pub fn center(&self) -> (r: (i64, i64))
        ensures
            r.0 == self.center2_x(),
            r.1 == self.center2_y(),
    {
        (2 * (self.x as i64) + self.width as i64, 2 * (self.y as i64) + self.height as i64)
    }
}

/// The four directional keys.
#[derive(Debug, Clone, Copy, PartialEq, Eq, Structural)]
pub enum WASDKey {
    /// Up.
    W,
    /// Left.
    A,
    /// Down.
    S,
    /// Right.
    D,
}

/// The key that a string names once it has been upper-cased.
pub open spec fn key_from_upper(s: Seq<char>) -> Option<WASDKey> {
    if s == seq!['W'] {
        Some(WASDKey::W)
    } else if s == seq!['A'] {
        Some(WASDKey::A)
    } else if s == seq!['S'] {
        Some(WASDKey::S)
    } else if s == seq!['D'] {
        Some(WASDKey::D)
    } else {
        None
    }
}

/// What `str::to_uppercase` returns for a string.
pub uninterp spec fn upper_of(s: Seq<char>) -> Seq<char>;

/// What `str::to_lowercase` returns for a string.
pub uninterp spec fn lower_of(s: Seq<char>) -> Seq<char>;

/// Relies on `str::to_uppercase`: its result depends on the characters alone.
#[verifier::external_body]
fn to_upper(s: &str) -> (r: String)
    ensures
        r@ == upper_of(s@),
{
    s.to_uppercase()
}

/// Relies on `str::to_lowercase`: its result depends on the characters alone.
#[verifier::external_body]
fn to_lower(s: &str) -> (r: String)
    ensures
        r@ == lower_of(s@),
{
    s.to_lowercase()
}

/// Whether `s` holds exactly the characters of `lit`.
pub fn same_chars(s: &str, lit: &str) -> (r: bool)
    ensures
        r == (s@ == lit@),
{
    let n = s.unicode_len();
    if n != lit.unicode_len() {
        return false;
    }
    let mut i: usize = 0;
    while i < n
        invariant
            n == s@.len(),
            n == lit@.len(),
            i <= n,
            forall|j: int| 0 <= j < i ==> s@[j] == lit@[j],
        decreases n - i,
    {
        if s.get_char(i) != lit.get_char(i) {
            return false;
        }
        i = i + 1;
    }
    assert(s@ =~= lit@);
    true
}

impl WASDKey {
    /// Parses a key from a string already upper-cased.
    pub fn from_upper(s: &str) -> (r: Option<WASDKey>)
        ensures
            r == key_from_upper(s@),
    {
        proof {
            reveal_strlit("W");
            reveal_strlit("A");
            reveal_strlit("S");
            reveal_strlit("D");
        }
        assert("W"@ =~= seq!['W']);
        assert("A"@ =~= seq!['A']);
        assert("S"@ =~= seq!['S']);
        assert("D"@ =~= seq!['D']);
        if same_chars(s, "W") {
            Some(WASDKey::W)
        } else if same_chars(s, "A") {
            Some(WASDKey::A)
        } else if same_chars(s, "S") {
            Some(WASDKey::S)
        } else if same_chars(s, "D") {
            Some(WASDKey::D)
        } else {
            None
        }
    }

    /// Parses a key name, ignoring case.
    pub fn from_str(s: &str) -> (r: Option<WASDKey>)
        ensures
            r == key_from_upper(upper_of(s@)),
    {
        let up = to_upper(s);
        WASDKey::from_upper(up.as_str())
    }

    /// The unit vector of the key, `y` growing downward.
    pub open spec fn spec_direction_vector(self) -> (int, int) {
        match self {
            WASDKey::W => (0, -1),
            WASDKey::A => (-1, 0),
            WASDKey::S => (0, 1),
            WASDKey::D => (1, 0),
        }
    }

    /// The unit vector of the key.
    pub fn direction_vector(&self) -> (r: (i8, i8))
        ensures
            r.0 as int == self.spec_direction_vector().0,
            r.1 as int == self.spec_direction_vector().1,
    {
        match self {
            WASDKey::W => (0, -1),
            WASDKey::A => (-1, 0),
            WASDKey::S => (0, 1),
            WASDKey::D => (1, 0),
        }
    }

    /// The name of the key's direction.
    pub open spec fn spec_direction_name(self) -> Seq<char> {
        match self {
            WASDKey::W => "up"@,
            WASDKey::A => "left"@,
            WASDKey::S => "down"@,
            WASDKey::D => "right"@,
        }
    }

    /// The name of the key's direction: up, left, down or right.
    pub fn direction_name(&self) -> (r: String)
        ensures
            r@ == self.spec_direction_name(),
    {
        match self {
            WASDKey::W => String::from_str("up"),
            WASDKey::A => String::from_str("left"),
            WASDKey::S => String::from_str("down"),
            WASDKey::D => String::from_str("right"),
        }
    }

    /// The edge of a domain that the key leaves through.
    pub open spec fn spec_edge(self) -> GateDirection {
        match self {
            WASDKey::W => GateDirection::Top,
            WASDKey::S => GateDirection::Bottom,
            WASDKey::A => GateDirection::Left,
            WASDKey::D => GateDirection::Right,
        }
    }

    /// The edge of a domain that the key leaves through.
    pub fn edge(&self) -> (r: GateDirection)
        ensures
            r == self.spec_edge(),
    {
        match self {
            WASDKey::W => GateDirection::Top,
            WASDKey::S => GateDirection::Bottom,
            WASDKey::A => GateDirection::Left,
            WASDKey::D => GateDirection::Right,
        }
    }
}

/// How a domain orders its elements for directional movement.
#[derive(Debug, Clone, Copy, PartialEq, Eq, Structural)]
pub enum LayoutMode {
    /// Rows of `columns` elements, filled left to right.
    Grid { columns: usize },
    /// A single row or column.
    List { direction: ListDirection },
    /// Free placement, moved through by the elements' bounds.
    Spatial,
}

/// The layout that a mode name gives: `grid` (with `grid_columns`, 3 when absent),
/// `list-vertical`, `list-horizontal` or `spatial`.
pub open spec fn layout_from_name(name: Seq<char>, grid_columns: Option<usize>) -> Option<LayoutMode> {
    if name == "grid"@ {
        Some(
            LayoutMode::Grid {
                columns: match grid_columns {
                    Some(c) => c,
                    None => 3,
                },
            },
        )
    } else if name == "list-vertical"@ {
        Some(LayoutMode::List { direction: ListDirection::Vertical })
    } else if name == "list-horizontal"@ {
        Some(LayoutMode::List { direction: ListDirection::Horizontal })
    } else if name == "spatial"@ {
        Some(LayoutMode::Spatial)
    } else {
        None
    }
}

impl LayoutMode {
    /// Parses a layout mode name.
    pub fn from_name(name: &str, grid_columns: Option<usize>) -> (r: Option<LayoutMode>)
        ensures
            r == layout_from_name(name@, grid_columns),
    {
        if same_chars(name, "grid") {
            Some(
                LayoutMode::Grid {
                    columns: match grid_columns {
                        Some(c) => c,
                        None => 3,
                    },
                },
            )
        } else if same_chars(name, "list-vertical") {
            Some(LayoutMode::List { direction: ListDirection::Vertical })
        } else if same_chars(name, "list-horizontal") {
            Some(LayoutMode::List { direction: ListDirection::Horizontal })
        } else if same_chars(name, "spatial") {
            Some(LayoutMode::Spatial)
        } else {
            None
        }
    }
}

/// The axis of a list layout.
#[derive(Debug, Clone, Copy, PartialEq, Eq, Structural)]
pub enum ListDirection {
    Vertical,
    Horizontal,
}

/// An edge of a domain.
#[derive(Debug, Clone, Copy, PartialEq, Eq, Structural)]
pub enum GateDirection {
    Top,
    Bottom,
    Left,
    Right,
}

/// The edge that a string names once it has been lower-cased.
pub open spec fn edge_from_lower(s: Seq<char>) -> Option<GateDirection> {
    if s == seq!['t', 'o', 'p'] {
        Some(GateDirection::Top)
    } else if s == seq!['b', 'o', 't', 't', 'o', 'm'] {
        Some(GateDirection::Bottom)
    } else if s == seq!['l', 'e', 'f', 't'] {
        Some(GateDirection::Left)
    } else if s == seq!['r', 'i', 'g', 'h', 't'] {
        Some(GateDirection::Right)
    } else {
        None
    }
}

/// The lower-case name of an edge.
pub open spec fn edge_name(g: GateDirection) -> Seq<char> {
    match g {
        GateDirection::Top => seq!['t', 'o', 'p'],
        GateDirection::Bottom => seq!['b', 'o', 't', 't', 'o', 'm'],
        GateDirection::Left => seq!['l', 'e', 'f', 't'],
        GateDirection::Right => seq!['r', 'i', 'g', 'h', 't'],
    }
}

impl GateDirection {
    /// Parses an edge from a string already lower-cased.
    pub fn from_lower(s: &str) -> (r: Option<GateDirection>)
        ensures
            r == edge_from_lower(s@),
    {
        proof {
            reveal_strlit("top");
            reveal_strlit("bottom");
            reveal_strlit("left");
            reveal_strlit("right");
        }
        assert("top"@ =~= seq!['t', 'o', 'p']);
        assert("bottom"@ =~= seq!['b', 'o', 't', 't', 'o', 'm']);
        assert("left"@ =~= seq!['l', 'e', 'f', 't']);
        assert("right"@ =~= seq!['r', 'i', 'g', 'h', 't']);
        if same_chars(s, "top") {
            Some(GateDirection::Top)
        } else if same_chars(s, "bottom") {
            Some(GateDirection::Bottom)
        } else if same_chars(s, "left") {
            Some(GateDirection::Left)
        } else if same_chars(s, "right") {
            Some(GateDirection::Right)
        } else {
            None
        }
    }

    /// Parses an edge name, ignoring case.
    pub fn from_str(s: &str) -> (r: Option<GateDirection>)
        ensures
            r == edge_from_lower(lower_of(s@)),
    {
        let low = to_lower(s);
        GateDirection::from_lower(low.as_str())
    }

    /// The lower-case name of the edge.
    pub fn name(&self) -> (r: String)
        ensures
            r@ == edge_name(*self),
    {
        proof {
            reveal_strlit("top");
            reveal_strlit("bottom");
            reveal_strlit("left");
            reveal_strlit("right");
        }
        let r = match self {
            GateDirection::Top => String::from_str("top"),
            GateDirection::Bottom => String::from_str("bottom"),
            GateDirection::Left => String::from_str("left"),
            GateDirection::Right => String::from_str("right"),
        };
        assert(r@ =~= edge_name(*self));
        r
    }
}

/// The kind of a focusable element; buttons are the only kind.
#[derive(Debug, Clone, Copy, PartialEq, Eq, Structural)]
pub enum ElementType {
    Button,
}

/// Where the single cursor stands.
#[derive(Debug, Clone)]
pub struct CursorPosition {
    pub domain_id: String,
    pub element_id: String,
    pub element_type: ElementType,
}

impl CursorPosition {
    /// A copy of the position.
    pub fn duplicate(&self) -> (r: CursorPosition)
        ensures
            r == *self,
    {
        CursorPosition {
            domain_id: self.domain_id.clone(),
            element_id: self.element_id.clone(),
            element_type: self.element_type,
        }
    }
}

/// The target of a navigation step.
#[derive(Debug, Clone)]
pub enum NavigationTarget {
    Button(String),
    Boundary,
}

/// What a directional input or a domain switch did.
#[derive(Debug, Clone)]
pub enum NavigationResult {
    CursorMoved { domain_id: String, element_id: String, element_type: ElementType },
    DomainBoundaryCrossed { from_domain: String, to_domain: String, direction: String },
    BoundaryReached,
    NoActiveDomain,
    DomainSwitched { from_domain: String, to_domain: String, new_element_id: String },
    Error { message: String },
}

} // verus!
