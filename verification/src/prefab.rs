//! The UI prefab editor: its state, the checks a prefab must pass before it
//! is loaded or saved, and the search of an element by name.

use vstd::prelude::*;
use crate::paths::{extension_of_path, path_extension};
use crate::text::text_equals;

verus! {

broadcast use vstd::string::group_string_axioms;

/// The tool of the prefab canvas.
#[derive(Debug, Clone, Copy, PartialEq, Eq, Structural)]
pub enum EditorTool {
    Select,
    Move,
    Resize,
}

/// What a drag on the prefab canvas changes.
#[derive(Debug, Clone, Copy, PartialEq, Eq, Structural)]
pub enum DragMode {
    /// No drag under way.
    NoDrag,
    Position,
    Resize,
    AnchorMin,
    AnchorMax,
    Pivot,
}

/// For each of an element's anchor points and its pivot, whether both its
/// coordinates lie between 0 and 1 (bounds included).
#[derive(Debug, Clone, Copy, PartialEq, Eq, Structural)]
pub struct RangeChecks {
    pub anchor_min: bool,
    pub anchor_max: bool,
    pub pivot: bool,
}

/// An element of a UI prefab, as far as the editor's checks read it: its
/// name, the ranges of its anchors and pivot, and its children in order.
pub struct PrefabElement {
    pub name: String,
    pub ranges: RangeChecks,
    pub children: Vec<PrefabElement>,
}

/// A UI prefab: its name and its root element.
pub struct Prefab {
    pub name: String,
    pub root: PrefabElement,
}

/// The message for an element whose `point` values lie out of range.
pub open spec fn range_message(name: Seq<char>, point: Seq<char>) -> Seq<char> {
    "Element '"@ + name + "': "@ + point + " values must be between 0 and 1"@
}

/// The first problem of an element and its subtree, visited parent first and
/// children in order: an empty name, then anchor_min, anchor_max and pivot
/// values out of range.
pub open spec fn element_problem(e: PrefabElement) -> Option<Seq<char>>
    decreases e, 1int, 0int,
{
    if e.name@.len() == 0 {
        Some("Element name cannot be empty"@)
    } else if !e.ranges.anchor_min {
        Some(range_message(e.name@, "anchor_min"@))
    } else if !e.ranges.anchor_max {
        Some(range_message(e.name@, "anchor_max"@))
    } else if !e.ranges.pivot {
        Some(range_message(e.name@, "pivot"@))
    } else {
        children_problem(e, e.children@.len() as int)
    }
}

/// The first problem among the subtrees of the first `n` children of `e`.
pub open spec fn children_problem(e: PrefabElement, n: int) -> Option<Seq<char>>
    decreases e, 0int, n,
{
    if n <= 0 || n > e.children@.len() {
        None
    } else {
        match children_problem(e, n - 1) {
            Some(m) => Some(m),
            None => {
                proof {
                    assert(decreases_to!(e => e.children));
                    assert(decreases_to!(e.children => e.children@));
                    assert(decreases_to!(e.children@ => e.children@[n - 1]));
                }
                element_problem(e.children@[n - 1])
            },
        }
    }
}

/// The first problem of a prefab: an empty name, then the problems of its
/// elements.
pub open spec fn prefab_problem(p: Prefab) -> Option<Seq<char>> {
    if p.name@.len() == 0 {
        Some("Prefab name cannot be empty"@)
    } else {
        element_problem(p.root)
    }
}

/// The first element named `name` in the subtree of `e`, parent first and
/// children in order.
pub open spec fn find_in(e: PrefabElement, name: Seq<char>) -> Option<PrefabElement>
    decreases e, 1int, 0int,
{
    if e.name@ == name {
        Some(e)
    } else {
        find_in_children(e, name, e.children@.len() as int)
    }
}

/// The first element named `name` in the subtrees of the first `n` children
/// of `e`.
pub open spec fn find_in_children(e: PrefabElement, name: Seq<char>, n: int) -> Option<PrefabElement>
    decreases e, 0int, n,
{
    if n <= 0 || n > e.children@.len() {
        None
    } else {
        match find_in_children(e, name, n - 1) {
            Some(x) => Some(x),
            None => {
                proof {
                    assert(decreases_to!(e => e.children));
                    assert(decreases_to!(e.children => e.children@));
                    assert(decreases_to!(e.children@ => e.children@[n - 1]));
                }
                find_in(e.children@[n - 1], name)
            },
        }
    }
}

/// The place of the first child among the first `n` children of `e` whose
/// subtree holds an element named `name`, or -1 where there is none.
pub open spec fn first_holding_child(e: PrefabElement, name: Seq<char>, n: int) -> int
    decreases n,
{
    if n <= 0 || n > e.children@.len() {
        -1
    } else if find_in_children(e, name, n - 1) is Some {
        first_holding_child(e, name, n - 1)
    } else if find_in(e.children@[n - 1], name) is Some {
        n - 1
    } else {
        -1
    }
}

/// `new` is `old` with its first element named `name` (parent first,
/// children in order) replaced by `x`, and nothing else changed.
pub open spec fn replaced_first(
    old: PrefabElement,
    new: PrefabElement,
    name: Seq<char>,
    x: PrefabElement,
) -> bool
    decreases old,
{
    if old.name@ == name {
        new == x
    } else {
        let j = first_holding_child(old, name, old.children@.len() as int);
        if 0 <= j < old.children@.len() {
            proof {
                assert(decreases_to!(old => old.children));
                assert(decreases_to!(old.children => old.children@));
                assert(decreases_to!(old.children@ => old.children@[j]));
            }
            &&& new.name == old.name
            &&& new.ranges == old.ranges
            &&& new.children@.len() == old.children@.len()
            &&& forall|i: int|
                0 <= i < old.children@.len() && i != j ==> #[trigger] new.children@[i]
                    == old.children@[i]
            &&& replaced_first(old.children@[j], new.children@[j], name, x)
        } else {
            false
        }
    }
}

/// Once a problem is found among the first children, more children do not
/// change it.
pub proof fn lemma_children_problem_stays(e: PrefabElement, i: int, n: int)
    requires
        0 <= i <= n <= e.children@.len(),
        children_problem(e, i) is Some,
    ensures
        children_problem(e, n) == children_problem(e, i),
    decreases n - i,
{
    if n > i {
        lemma_children_problem_stays(e, i, n - 1);
    }
}

/// Once an element is found among the first children, more children do not
/// change it.
pub proof fn lemma_find_in_children_stays(e: PrefabElement, name: Seq<char>, i: int, n: int)
    requires
        0 <= i <= n <= e.children@.len(),
        find_in_children(e, name, i) is Some,
    ensures
        find_in_children(e, name, n) == find_in_children(e, name, i),
    decreases n - i,
{
    if n > i {
        lemma_find_in_children_stays(e, name, i, n - 1);
    }
}

/// Where the first `i` children hold no element named `name` and child `i`
/// does, child `i` is the first holding child of any longer prefix, and the
/// element found there is the one found in child `i`.
pub proof fn lemma_first_holding_child(e: PrefabElement, name: Seq<char>, i: int, n: int)
    requires
        0 <= i < n <= e.children@.len(),
        find_in_children(e, name, i) is None,
        find_in(e.children@[i], name) is Some,
    ensures
        first_holding_child(e, name, n) == i,
        find_in_children(e, name, n) == find_in(e.children@[i], name),
    decreases n - i,
{
    if n > i + 1 {
        lemma_first_holding_child(e, name, i, n - 1);
    }
}

/// The element found by a name has that name.
pub proof fn lemma_found_element_has_name(e: PrefabElement, name: Seq<char>)
    ensures
        find_in(e, name) matches Some(x) ==> x.name@ == name,
    decreases e, 1int, 0int,
{
    if e.name@ != name {
        lemma_found_child_has_name(e, name, e.children@.len() as int);
    }
}

/// The element found by a name among the first `n` children's subtrees has
/// that name.
pub proof fn lemma_found_child_has_name(e: PrefabElement, name: Seq<char>, n: int)
    ensures
        find_in_children(e, name, n) matches Some(x) ==> x.name@ == name,
    decreases e, 0int, n,
{
    if 0 < n <= e.children@.len() {
        lemma_found_child_has_name(e, name, n - 1);
        assert(decreases_to!(e => e.children));
        assert(decreases_to!(e.children => e.children@));
        assert(decreases_to!(e.children@ => e.children@[n - 1]));
        lemma_found_element_has_name(e.children@[n - 1], name);
    }
}

/// A new prefab, named, whose root has its points in range, passes the
/// checks.
pub proof fn lemma_new_prefab_passes(p: Prefab)
    requires
        p.name@.len() > 0,
        p.root.name@ == "Root"@,
        p.root.ranges == (RangeChecks { anchor_min: true, anchor_max: true, pivot: true }),
        p.root.children@.len() == 0,
    ensures
        prefab_problem(p) is None,
{
    reveal_strlit("Root");
}

/// The extension of prefab files.
pub open spec fn prefab_ext() -> Seq<char> {
    "uiprefab"@
}

/// What a path's extension says of it as a prefab file: nothing when it is
/// `uiprefab`, else the message that reports it.
pub open spec fn extension_problem(path: Seq<char>) -> Option<Seq<char>> {
    match path_extension(path) {
        Some(e) => if e == prefab_ext() {
            None
        } else {
            Some("Invalid file extension. Expected .uiprefab, got ."@ + e)
        },
        None => Some("File has no extension. Expected .uiprefab"@),
    }
}

/// The outcome that a problem, if any, stands for.
pub open spec fn outcome_of(problem: Option<Seq<char>>, r: Result<(), String>) -> bool {
    match problem {
        None => r is Ok,
        Some(m) => r is Err && r->Err_0@ == m,
    }
}

/// Checks one element and its subtree; the first problem found is returned
/// as its message.
pub fn check_element(element: &PrefabElement) -> (r: Result<(), String>)
    ensures
        outcome_of(element_problem(*element), r),
    decreases element,
{
    if element.name.as_str().is_empty() {
        return Err(String::from_str("Element name cannot be empty"));
    }
    if !element.ranges.anchor_min {
        let mut m = String::from_str("Element '");
        m.append(element.name.as_str());
        m.append("': ");
        m.append("anchor_min");
        m.append(" values must be between 0 and 1");
        return Err(m);
    }
    if !element.ranges.anchor_max {
        let mut m = String::from_str("Element '");
        m.append(element.name.as_str());
        m.append("': ");
        m.append("anchor_max");
        m.append(" values must be between 0 and 1");
        return Err(m);
    }
    if !element.ranges.pivot {
        let mut m = String::from_str("Element '");
        m.append(element.name.as_str());
        m.append("': ");
        m.append("pivot");
        m.append(" values must be between 0 and 1");
        return Err(m);
    }
    let mut i: usize = 0;
    while i < element.children.len()
        invariant
            i <= element.children@.len(),
            children_problem(*element, i as int) is None,
            element_problem(*element) == children_problem(
                *element,
                element.children@.len() as int,
            ),
        decreases element.children@.len() - i,
    {
        proof {
            assert(decreases_to!(*element => element.children));
            assert(decreases_to!(element.children => element.children@));
            assert(decreases_to!(element.children@ => element.children@[i as int]));
        }
        match check_element(&element.children[i]) {
            Ok(()) => {},
            Err(m) => {
                proof {
                    lemma_children_problem_stays(*element, i + 1, element.children@.len() as int);
                }
                return Err(m);
            },
        }
        i += 1;
    }
    Ok(())
}

/// Checks a prefab: its name, then its elements.
pub fn check_prefab(prefab: &Prefab) -> (r: Result<(), String>)
    ensures
        outcome_of(prefab_problem(*prefab), r),
{
    if prefab.name.as_str().is_empty() {
        return Err(String::from_str("Prefab name cannot be empty"));
    }
    check_element(&prefab.root)
}

/// Checks that a path names a prefab file by its extension.
pub fn check_prefab_extension(path: &str) -> (r: Result<(), String>)
    ensures
        outcome_of(extension_problem(path@), r),
{
    match extension_of_path(path) {
        Some(e) => {
            if text_equals(e.as_str(), "uiprefab") {
                Ok(())
            } else {
                let mut m = String::from_str("Invalid file extension. Expected .uiprefab, got .");
                m.append(e.as_str());
                Err(m)
            }
        },
        None => Err(String::from_str("File has no extension. Expected .uiprefab")),
    }
}

/// The first element named `name` in the subtree of `element`, parent first
/// and children in order.
pub fn find_element_by_name<'a>(element: &'a PrefabElement, name: &str) -> (found: Option<
    &'a PrefabElement,
>)
    ensures
        match found {
            Some(f) => find_in(*element, name@) == Some(*f),
            None => find_in(*element, name@) is None,
        },
    decreases element,
{
    if text_equals(element.name.as_str(), name) {
        return Some(element);
    }
    let mut i: usize = 0;
    while i < element.children.len()
        invariant
            i <= element.children@.len(),
            element.name@ != name@,
            find_in_children(*element, name@, i as int) is None,
        decreases element.children@.len() - i,
    {
        proof {
            assert(decreases_to!(*element => element.children));
            assert(decreases_to!(element.children => element.children@));
            assert(decreases_to!(element.children@ => element.children@[i as int]));
        }
        match find_element_by_name(&element.children[i], name) {
            Some(f) => {
                proof {
                    lemma_find_in_children_stays(*element, name@, i + 1, element.children@.len() as int);
                }
                return Some(f);
            },
            None => {},
        }
        i += 1;
    }
    None
}

/// The first element named `name` in the subtree of `element`, parent first
/// and children in order, lent for change: whatever is written through it
/// lands in that place of `element`, and the rest of `element` stays as it
/// was.
pub fn find_element_by_name_mut<'a>(element: &'a mut PrefabElement, name: &str) -> (found: Option<
    &'a mut PrefabElement,
>)
    ensures
        match found {
            Some(f) => {
                &&& find_in(*old(element), name@) == Some(*f)
                &&& replaced_first(*old(element), *final(element), name@, *final(f))
            },
            None => {
                &&& find_in(*old(element), name@) is None
                &&& *final(element) == *old(element)
            },
        },
    decreases *old(element),
{
    if text_equals(element.name.as_str(), name) {
        return Some(element);
    }
    let n: usize = element.children.len();
    let mut i: usize = 0;
    while i < n
        invariant
            n == element.children@.len(),
            i <= n,
            element.name@ != name@,
            find_in_children(*element, name@, i as int) is None,
        ensures
            i < n ==> find_in(element.children@[i as int], name@) is Some,
        decreases n - i,
    {
        if find_element_by_name(&element.children[i], name).is_some() {
            break;
        }
        i += 1;
    }
    if i == n {
        return None;
    }
    proof {
        lemma_first_holding_child(*element, name@, i as int, n as int);
        assert(decreases_to!(*element => element.children));
        assert(decreases_to!(element.children => element.children@));
        assert(decreases_to!(element.children@ => element.children@[i as int]));
    }
    let child = &mut element.children[i];
    find_element_by_name_mut(child, name)
}

/// State of the prefab editor.
pub struct PrefabEditorState {
    /// The prefab being edited.
    pub current_prefab: Option<Prefab>,
    /// The file it was loaded from or saved to.
    pub current_file: Option<String>,
    /// Name of the selected element.
    pub selected_element: Option<String>,
    /// Tool of the canvas.
    pub current_tool: EditorTool,
    /// What a drag changes.
    pub drag_mode: DragMode,
    /// Whether a drag is under way.
    pub is_dragging: bool,
    /// Whether the prefab changed since it was loaded or saved.
    pub modified: bool,
}

impl PrefabEditorState {
    /// A state with no prefab, the select tool and no drag.
    pub fn new() -> (s: Self)
        ensures
            s.current_prefab is None,
            s.current_file is None,
            s.selected_element is None,
            s.current_tool == EditorTool::Select,
            s.drag_mode == DragMode::NoDrag,
            !s.is_dragging,
            !s.modified,
    {
        PrefabEditorState {
            current_prefab: None,
            current_file: None,
            selected_element: None,
            current_tool: EditorTool::Select,
            drag_mode: DragMode::NoDrag,
            is_dragging: false,
            modified: false,
        }
    }

    /// The selected element of the current prefab, found by its name.
    pub fn get_selected_element(&self) -> (found: Option<&PrefabElement>)
        ensures
            match (self.current_prefab, self.selected_element) {
                (Some(p), Some(n)) => match found {
                    Some(f) => find_in(p.root, n@) == Some(*f),
                    None => find_in(p.root, n@) is None,
                },
                _ => found is None,
            },
    {
        match (&self.current_prefab, &self.selected_element) {
            (Some(prefab), Some(name)) => find_element_by_name(&prefab.root, name.as_str()),
            _ => None,
        }
    }

    /// The selected element of the current prefab, found by its name and lent
    /// for change: whatever is written through it lands in that place of the
    /// prefab's tree, and nothing else of the state changes.
    pub fn get_selected_element_mut(&mut self) -> (found: Option<&mut PrefabElement>)
        ensures
            match (old(self).current_prefab, old(self).selected_element) {
                (Some(p), Some(n)) => match found {
                    Some(f) => {
                        &&& find_in(p.root, n@) == Some(*f)
                        &&& final(self).current_prefab matches Some(q) && q.name == p.name
                            && replaced_first(p.root, q.root, n@, *final(f))
                        &&& *final(self) == (PrefabEditorState {
                            current_prefab: final(self).current_prefab,
                            ..*old(self)
                        })
                    },
                    None => {
                        &&& find_in(p.root, n@) is None
                        &&& *final(self) == *old(self)
                    },
                },
                _ => found is None && *final(self) == *old(self),
            },
    {
        if let Some(name) = self.selected_element.clone() {
            if let Some(prefab) = &mut self.current_prefab {
                return find_element_by_name_mut(&mut prefab.root, name.as_str());
            }
        }
        None
    }

    /// Selects the element with this name.
    pub fn select_element(&mut self, name: String)
        ensures
            *final(self) == (PrefabEditorState { selected_element: Some(name), ..*old(self) }),
    {
        self.selected_element = Some(name);
    }

    /// Clears the selection.
    pub fn deselect(&mut self)
        ensures
            *final(self) == (PrefabEditorState { selected_element: None, ..*old(self) }),
    {
        self.selected_element = None;
    }

    /// Marks the prefab as changed.
    pub fn mark_modified(&mut self)
        ensures
            *final(self) == (PrefabEditorState { modified: true, ..*old(self) }),
    {
        self.modified = true;
    }
}

impl Default for PrefabEditorState {
    fn default() -> (s: Self)
        ensures
            s.current_prefab is None,
            s.current_file is None,
            s.selected_element is None,
            s.current_tool == EditorTool::Select,
            s.drag_mode == DragMode::NoDrag,
            !s.is_dragging,
            !s.modified,
    {
        PrefabEditorState::new()
    }
}

/// The panel that edits the selected element.
pub struct PropertiesPanel {
    /// Whether the palette of components is shown.
    pub show_component_palette: bool,
}

impl PropertiesPanel {
    /// A panel that shows the component palette.
    pub fn new() -> (p: Self)
        ensures
            p.show_component_palette,
    {
        PropertiesPanel { show_component_palette: true }
    }
}

impl Default for PropertiesPanel {
    fn default() -> (p: Self)
        ensures
            p.show_component_palette,
    {
        PropertiesPanel::new()
    }
}

/// The prefab editor: its state and its properties panel.
pub struct PrefabEditor {
    pub state: PrefabEditorState,
    pub properties: PropertiesPanel,
}

impl PrefabEditor {
    /// An editor with no prefab.
    pub fn new() -> (editor: Self)
        ensures
            editor.state.current_prefab is None,
            editor.state.current_file is None,
            editor.state.selected_element is None,
            !editor.state.modified,
            editor.properties.show_component_palette,
    {
        PrefabEditor { state: PrefabEditorState::new(), properties: PropertiesPanel::new() }
    }

    /// Checks a prefab before it is loaded or saved.
    pub fn validate_prefab(&self, prefab: &Prefab) -> (r: Result<(), String>)
        ensures
            outcome_of(prefab_problem(*prefab), r),
    {
        check_prefab(prefab)
    }

    /// Loads into the editor a prefab read from `path`, or the message of why
    /// it could not be read: the path must name a prefab file, and the prefab
    /// must pass the checks. A loaded prefab counts as unchanged.
    pub fn load_prefab(&mut self, path: String, read: Result<Prefab, String>) -> (r: Result<
        (),
        String,
    >)
        ensures
            extension_problem(path@) is Some ==> outcome_of(extension_problem(path@), r),
            extension_problem(path@) is None ==> match read {
                Err(m) => r is Err && r->Err_0@ == m@,
                Ok(p) => outcome_of(prefab_problem(p), r),
            },
            r is Ok ==> final(self).state == (PrefabEditorState {
                current_prefab: read.ok(),
                current_file: Some(path),
                modified: false,
                ..old(self).state
            }),
            r is Err ==> final(self).state == old(self).state,
            final(self).properties == old(self).properties,
    {
        match check_prefab_extension(path.as_str()) {
            Ok(()) => {},
            Err(m) => {
                return Err(m);
            },
        }
        match read {
            Err(m) => Err(m),
            Ok(prefab) => {
                match check_prefab(&prefab) {
                    Ok(()) => {},
                    Err(m) => {
                        return Err(m);
                    },
                }
                self.state.current_prefab = Some(prefab);
                self.state.current_file = Some(path);
                self.state.modified = false;
                Ok(())
            },
        }
    }

    /// Whether the prefab can be saved to its file: one must be loaded, with
    /// a file, and pass the checks.
    pub fn check_save(&self) -> (r: Result<(), String>)
        ensures
            match (self.state.current_prefab, self.state.current_file) {
                (Some(p), Some(_)) => outcome_of(prefab_problem(p), r),
                _ => r is Err && r->Err_0@ == "No prefab loaded or no file path"@,
            },
    {
        match (&self.state.current_prefab, &self.state.current_file) {
            (Some(prefab), Some(_)) => check_prefab(prefab),
            _ => Err(String::from_str("No prefab loaded or no file path")),
        }
    }

    /// Records that the prefab was written to its file.
    pub fn saved(&mut self)
        ensures
            final(self).state == (PrefabEditorState { modified: false, ..old(self).state }),
            final(self).properties == old(self).properties,
    {
        self.state.modified = false;
    }

    /// Whether the prefab can be saved to `path`: the path must name a prefab
    /// file, a prefab must be loaded, and it must pass the checks.
    pub fn check_save_as(&self, path: &str) -> (r: Result<(), String>)
        ensures
            extension_problem(path@) is Some ==> outcome_of(extension_problem(path@), r),
            extension_problem(path@) is None ==> match self.state.current_prefab {
                Some(p) => outcome_of(prefab_problem(p), r),
                None => r is Err && r->Err_0@ == "No prefab loaded"@,
            },
    {
        match check_prefab_extension(path) {
            Ok(()) => {},
            Err(m) => {
                return Err(m);
            },
        }
        match &self.state.current_prefab {
            Some(prefab) => check_prefab(prefab),
            None => Err(String::from_str("No prefab loaded")),
        }
    }

    /// Records that the prefab was written to `path`, its file from now on.
    pub fn saved_as(&mut self, path: String)
        ensures
            final(self).state == (PrefabEditorState {
                current_file: Some(path),
                modified: false,
                ..old(self).state
            }),
            final(self).properties == old(self).properties,
    {
        self.state.current_file = Some(path);
        self.state.modified = false;
    }

    /// Starts a new prefab with this name, whose only element is `Root`, with
    /// the given ranges; it has no file yet and counts as changed.
    pub fn new_prefab(&mut self, name: String, root_ranges: RangeChecks)
        ensures
            final(self).state.current_prefab matches Some(p) && p.name == name
                && p.root.name@ == "Root"@ && p.root.ranges == root_ranges
                && p.root.children@.len() == 0,
            final(self).state == (PrefabEditorState {
                current_prefab: final(self).state.current_prefab,
                current_file: None,
                modified: true,
                ..old(self).state
            }),
            final(self).properties == old(self).properties,
    {
        let root = PrefabElement {
            name: String::from_str("Root"),
            ranges: root_ranges,
            children: Vec::new(),
        };
        self.state.current_prefab = Some(Prefab { name, root });
        self.state.current_file = None;
        self.state.modified = true;
    }
}

impl Default for PrefabEditor {
    fn default() -> (editor: Self)
        ensures
            editor.state.current_prefab is None,
            editor.state.current_file is None,
            editor.state.selected_element is None,
            !editor.state.modified,
            editor.properties.show_component_palette,
    {
        PrefabEditor::new()
    }
}

} // verus!
