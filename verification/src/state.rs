use vstd::prelude::*;

use crate::strutil::ids_unique;
use crate::strutil::insert_id;
use crate::strutil::seq_contains_id;
use crate::strutil::set_of;
use crate::strutil::str_eq;
use crate::layout::ElementLayout;
use crate::layout::focusables_seen;
use crate::layout::hovered_ids;
use crate::layout::spec_inside;

verus! {

/// One stored attribute of an element: a key and its text value.
#[derive(Debug)]
struct AttrPair {
    key: String,
    val: String,
}

/// One stored flag of an element: a key and its truth value.
#[derive(Debug)]
struct FlagPair {
    key: String,
    val: bool,
}

/// The abstract content of an element's interaction record.
pub struct ElementStateModel {
    pub id: Seq<char>,
    pub clicked: bool,
    pub pressed: bool,
    pub right_clicked: bool,
    pub attrs: Map<Seq<char>, Seq<char>>,
    pub flags: Map<Seq<char>, bool>,
}

spec fn attrs_map(s: Seq<AttrPair>) -> Map<Seq<char>, Seq<char>>
    decreases s.len(),
{
    if s.len() == 0 {
        Map::empty()
    } else {
        attrs_map(s.drop_last()).insert(s.last().key@, s.last().val@)
    }
}

spec fn flags_map(s: Seq<FlagPair>) -> Map<Seq<char>, bool>
    decreases s.len(),
{
    if s.len() == 0 {
        Map::empty()
    } else {
        flags_map(s.drop_last()).insert(s.last().key@, s.last().val)
    }
}

spec fn attrs_unique(s: Seq<AttrPair>) -> bool {
    forall|i: int, j: int| 0 <= i < j < s.len() ==> (#[trigger] s[i]).key@ != (#[trigger] s[j]).key@
}

spec fn flags_unique(s: Seq<FlagPair>) -> bool {
    forall|i: int, j: int| 0 <= i < j < s.len() ==> (#[trigger] s[i]).key@ != (#[trigger] s[j]).key@
}

proof fn lemma_attrs_map_found(s: Seq<AttrPair>, k: Seq<char>, i: int)
    requires
        attrs_unique(s),
        0 <= i < s.len(),
        s[i].key@ == k,
    ensures
        attrs_map(s).contains_key(k),
        attrs_map(s)[k] == s[i].val@,
    decreases s.len(),
{
    if i == s.len() - 1 {
    } else {
        assert(s.drop_last()[i] == s[i]);
        assert(attrs_unique(s.drop_last())) by {
            assert forall|p: int, q: int|
                0 <= p < q < s.drop_last().len() implies (#[trigger] s.drop_last()[p]).key@ != (
            #[trigger] s.drop_last()[q]).key@ by {
                assert(s.drop_last()[p] == s[p]);
                assert(s.drop_last()[q] == s[q]);
            }
        }
        lemma_attrs_map_found(s.drop_last(), k, i);
        assert(s.last().key@ != k);
    }
}

proof fn lemma_attrs_map_missing(s: Seq<AttrPair>, k: Seq<char>)
    requires
        forall|i: int| 0 <= i < s.len() ==> (#[trigger] s[i]).key@ != k,
    ensures
        !attrs_map(s).contains_key(k),
    decreases s.len(),
{
    if s.len() > 0 {
        assert forall|i: int| 0 <= i < s.drop_last().len() implies (#[trigger] s.drop_last()[i]).key@
            != k by {
            assert(s.drop_last()[i] == s[i]);
        }
        lemma_attrs_map_missing(s.drop_last(), k);
    }
}

proof fn lemma_attrs_map_update(s: Seq<AttrPair>, i: int, p: AttrPair)
    requires
        attrs_unique(s),
        0 <= i < s.len(),
        s[i].key@ == p.key@,
    ensures
        attrs_map(s.update(i, p)) == attrs_map(s).insert(p.key@, p.val@),
        attrs_unique(s.update(i, p)),
    decreases s.len(),
{
    if i == s.len() - 1 {
        assert(s.update(i, p).drop_last() =~= s.drop_last());
        assert(attrs_map(s.update(i, p)) =~= attrs_map(s).insert(p.key@, p.val@));
    } else {
        assert(s.update(i, p).drop_last() =~= s.drop_last().update(i, p));
        assert(s.drop_last()[i] == s[i]);
        assert(attrs_unique(s.drop_last())) by {
            assert forall|a: int, b: int|
                0 <= a < b < s.drop_last().len() implies (#[trigger] s.drop_last()[a]).key@ != (
            #[trigger] s.drop_last()[b]).key@ by {
                assert(s.drop_last()[a] == s[a]);
                assert(s.drop_last()[b] == s[b]);
            }
        }
        lemma_attrs_map_update(s.drop_last(), i, p);
        assert(s.update(i, p).last() == s.last());
        assert(s.last().key@ != p.key@);
        assert(attrs_map(s.update(i, p)) =~= attrs_map(s).insert(p.key@, p.val@));
        assert forall|a: int, b: int|
            0 <= a < b < s.update(i, p).len() implies (#[trigger] s.update(i, p)[a]).key@ != (
        #[trigger] s.update(i, p)[b]).key@ by {
            assert(s.update(i, p)[a].key@ == s[a].key@);
            assert(s.update(i, p)[b].key@ == s[b].key@);
        }
    }
}

proof fn lemma_flags_map_found(s: Seq<FlagPair>, k: Seq<char>, i: int)
    requires
        flags_unique(s),
        0 <= i < s.len(),
        s[i].key@ == k,
    ensures
        flags_map(s).contains_key(k),
        flags_map(s)[k] == s[i].val,
    decreases s.len(),
{
    if i == s.len() - 1 {
    } else {
        assert(s.drop_last()[i] == s[i]);
        assert(flags_unique(s.drop_last())) by {
            assert forall|p: int, q: int|
                0 <= p < q < s.drop_last().len() implies (#[trigger] s.drop_last()[p]).key@ != (
            #[trigger] s.drop_last()[q]).key@ by {
                assert(s.drop_last()[p] == s[p]);
                assert(s.drop_last()[q] == s[q]);
            }
        }
        lemma_flags_map_found(s.drop_last(), k, i);
        assert(s.last().key@ != k);
    }
}

proof fn lemma_flags_map_missing(s: Seq<FlagPair>, k: Seq<char>)
    requires
        forall|i: int| 0 <= i < s.len() ==> (#[trigger] s[i]).key@ != k,
    ensures
        !flags_map(s).contains_key(k),
    decreases s.len(),
{
    if s.len() > 0 {
        assert forall|i: int| 0 <= i < s.drop_last().len() implies (#[trigger] s.drop_last()[i]).key@
            != k by {
            assert(s.drop_last()[i] == s[i]);
        }
        lemma_flags_map_missing(s.drop_last(), k);
    }
}

proof fn lemma_flags_map_update(s: Seq<FlagPair>, i: int, p: FlagPair)
    requires
        flags_unique(s),
        0 <= i < s.len(),
        s[i].key@ == p.key@,
    ensures
        flags_map(s.update(i, p)) == flags_map(s).insert(p.key@, p.val),
        flags_unique(s.update(i, p)),
    decreases s.len(),
{
    if i == s.len() - 1 {
        assert(s.update(i, p).drop_last() =~= s.drop_last());
        assert(flags_map(s.update(i, p)) =~= flags_map(s).insert(p.key@, p.val));
    } else {
        assert(s.update(i, p).drop_last() =~= s.drop_last().update(i, p));
        assert(s.drop_last()[i] == s[i]);
        assert(flags_unique(s.drop_last())) by {
            assert forall|a: int, b: int|
                0 <= a < b < s.drop_last().len() implies (#[trigger] s.drop_last()[a]).key@ != (
            #[trigger] s.drop_last()[b]).key@ by {
                assert(s.drop_last()[a] == s[a]);
                assert(s.drop_last()[b] == s[b]);
            }
        }
        lemma_flags_map_update(s.drop_last(), i, p);
        assert(s.update(i, p).last() == s.last());
        assert(s.last().key@ != p.key@);
        assert(flags_map(s.update(i, p)) =~= flags_map(s).insert(p.key@, p.val));
        assert forall|a: int, b: int|
            0 <= a < b < s.update(i, p).len() implies (#[trigger] s.update(i, p)[a]).key@ != (
        #[trigger] s.update(i, p)[b]).key@ by {
            assert(s.update(i, p)[a].key@ == s[a].key@);
            assert(s.update(i, p)[b].key@ == s[b].key@);
        }
    }
}

/// The per-element interaction record: the transient click, press and
/// right-click marks of the current frame, plus caller-defined attributes
/// and flags that persist across frames.
#[derive(Debug)]
pub struct ElementState {
    element_id: String,
    is_clicked: bool,
    is_pressed: bool,
    is_right_clicked: bool,
    attrs: Vec<AttrPair>,
    flags: Vec<FlagPair>,
}

impl View for ElementState {
    type V = ElementStateModel;

    closed spec fn view(&self) -> ElementStateModel {
        ElementStateModel {
            id: self.element_id@,
            clicked: self.is_clicked,
            pressed: self.is_pressed,
            right_clicked: self.is_right_clicked,
            attrs: attrs_map(self.attrs@),
            flags: flags_map(self.flags@),
        }
    }
}

impl ElementState {
    /// The stored key rows hold no key twice, so they read as maps.
    pub closed spec fn wf(&self) -> bool {
        attrs_unique(self.attrs@) && flags_unique(self.flags@)
    }

    pub fn new(element_id: String) -> (r: Self)
        ensures
            r@.id == element_id@,
            !r@.clicked,
            !r@.pressed,
            !r@.right_clicked,
            r@.attrs == Map::<Seq<char>, Seq<char>>::empty(),
            r@.flags == Map::<Seq<char>, bool>::empty(),
            r.wf(),
    {
        ElementState {
            element_id,
            is_clicked: false,
            is_pressed: false,
            is_right_clicked: false,
            attrs: Vec::new(),
            flags: Vec::new(),
        }
    }

    /// Clears the transient marks, keeping attributes and flags.
    pub(crate) fn reset(&mut self)
        requires
            old(self).wf(),
        ensures
            final(self).wf(),
            final(self)@ == (ElementStateModel {
                clicked: false,
                pressed: false,
                right_clicked: false,
                ..old(self)@
            }),
    {
        self.is_clicked = false;
        self.is_pressed = false;
        self.is_right_clicked = false;
    }

    pub(crate) fn set_transients(&mut self, clicked: bool, pressed: bool, right_clicked: bool)
        requires
            old(self).wf(),
        ensures
            final(self).wf(),
            final(self)@ == (ElementStateModel { clicked, pressed, right_clicked, ..old(self)@ }),
    {
        self.is_clicked = clicked;
        self.is_pressed = pressed;
        self.is_right_clicked = right_clicked;
    }

    pub fn get_attr(&self, k: &String) -> (r: Option<&String>)
        requires
            self.wf(),
        ensures
            r is Some <==> self@.attrs.contains_key(k@),
            r matches Some(v) ==> v@ == self@.attrs[k@],
    {
        let n = self.attrs.len();
        let mut i: usize = 0;
        while i < n
            invariant
                self.wf(),
                n == self.attrs@.len(),
                i <= n,
                forall|j: int| 0 <= j < i ==> (#[trigger] self.attrs@[j]).key@ != k@,
            decreases n - i,
        {
            if str_eq(self.attrs[i].key.as_str(), k.as_str()) {
                proof {
                    lemma_attrs_map_found(self.attrs@, k@, i as int);
                }
                return Option::Some(&self.attrs[i].val);
            }
            i += 1;
        }
        proof {
            lemma_attrs_map_missing(self.attrs@, k@);
        }
        Option::None
    }

    /// Stores an attribute, handing back the value it replaces, if any.
    pub fn set_attr(&mut self, k: String, value: String) -> (r: Option<String>)
        requires
            old(self).wf(),
        ensures
            final(self).wf(),
            final(self)@ == (ElementStateModel {
                attrs: old(self)@.attrs.insert(k@, value@),
                ..old(self)@
            }),
            r is Some <==> old(self)@.attrs.contains_key(k@),
            r matches Some(v) ==> v@ == old(self)@.attrs[k@],
    {
        let n = self.attrs.len();
        let mut i: usize = 0;
        while i < n
            invariant
                self.wf(),
                self@ == old(self)@,
                self.attrs@ == old(self).attrs@,
                n == self.attrs@.len(),
                i <= n,
                forall|j: int| 0 <= j < i ==> (#[trigger] self.attrs@[j]).key@ != k@,
            decreases n - i,
        {
            if str_eq(self.attrs[i].key.as_str(), k.as_str()) {
                proof {
                    lemma_attrs_map_found(self.attrs@, k@, i as int);
                }
                let old_val = self.attrs[i].val.clone();
                let ghost pre = self.attrs@;
                let slot = &mut self.attrs[i];
                slot.key = k;
                slot.val = value;
                proof {
                    lemma_attrs_map_update(pre, i as int, self.attrs@[i as int]);
                }
                return Option::Some(old_val);
            }
            i += 1;
        }
        proof {
            lemma_attrs_map_missing(self.attrs@, k@);
        }
        let ghost pre = self.attrs@;
        self.attrs.push(AttrPair { key: k, val: value });
        proof {
            assert(self.attrs@.drop_last() =~= pre);
            assert forall|a: int, b: int|
                0 <= a < b < self.attrs@.len() implies (#[trigger] self.attrs@[a]).key@ != (
            #[trigger] self.attrs@[b]).key@ by {
                if b < self.attrs@.len() - 1 {
                    assert(self.attrs@[a] == pre[a]);
                    assert(self.attrs@[b] == pre[b]);
                } else {
                    assert(self.attrs@[a] == pre[a]);
                }
            }
        }
        Option::None
    }

    /// Reads a flag; an unset flag reads as false.
    pub fn get_flag(&self, k: &String) -> (r: bool)
        requires
            self.wf(),
        ensures
            r == (self@.flags.contains_key(k@) && self@.flags[k@]),
    {
        let n = self.flags.len();
        let mut i: usize = 0;
        while i < n
            invariant
                self.wf(),
                n == self.flags@.len(),
                i <= n,
                forall|j: int| 0 <= j < i ==> (#[trigger] self.flags@[j]).key@ != k@,
            decreases n - i,
        {
            if str_eq(self.flags[i].key.as_str(), k.as_str()) {
                proof {
                    lemma_flags_map_found(self.flags@, k@, i as int);
                }
                return self.flags[i].val;
            }
            i += 1;
        }
        proof {
            lemma_flags_map_missing(self.flags@, k@);
        }
        false
    }

    /// Stores a flag, handing back the value it replaces; an absent one
    /// counts as false.
    pub fn set_flag(&mut self, k: String, value: bool) -> (r: bool)
        requires
            old(self).wf(),
        ensures
            final(self).wf(),
            final(self)@ == (ElementStateModel {
                flags: old(self)@.flags.insert(k@, value),
                ..old(self)@
            }),
            r == (old(self)@.flags.contains_key(k@) && old(self)@.flags[k@]),
    {
        let n = self.flags.len();
        let mut i: usize = 0;
        while i < n
            invariant
                self.wf(),
                self@ == old(self)@,
                self.flags@ == old(self).flags@,
                n == self.flags@.len(),
                i <= n,
                forall|j: int| 0 <= j < i ==> (#[trigger] self.flags@[j]).key@ != k@,
            decreases n - i,
        {
            if str_eq(self.flags[i].key.as_str(), k.as_str()) {
                proof {
                    lemma_flags_map_found(self.flags@, k@, i as int);
                }
                let old_val = self.flags[i].val;
                let ghost pre = self.flags@;
                let slot = &mut self.flags[i];
                slot.key = k;
                slot.val = value;
                proof {
                    lemma_flags_map_update(pre, i as int, self.flags@[i as int]);
                }
                return old_val;
            }
            i += 1;
        }
        proof {
            lemma_flags_map_missing(self.flags@, k@);
        }
        let ghost pre = self.flags@;
        self.flags.push(FlagPair { key: k, val: value });
        proof {
            assert(self.flags@.drop_last() =~= pre);
            assert forall|a: int, b: int|
                0 <= a < b < self.flags@.len() implies (#[trigger] self.flags@[a]).key@ != (
            #[trigger] self.flags@[b]).key@ by {
                if b < self.flags@.len() - 1 {
                    assert(self.flags@[a] == pre[a]);
                    assert(self.flags@[b] == pre[b]);
                } else {
                    assert(self.flags@[a] == pre[a]);
                }
            }
        }
        false
    }

    /// Clicked on the element
    pub fn is_clicked(&self) -> (r: bool)
        ensures
            r == self@.clicked,
    {
        self.is_clicked
    }

    /// The element this record belongs to.
    pub fn id_str(&self) -> (r: &str)
        ensures
            r@ == self@.id,
    {
        self.element_id.as_str()
    }

    /// Clicked and hold mouse down on element, if the mouse leaves and comes
    /// back without letting go of the click, this triggers again on hover
    pub fn is_pressed(&self) -> (r: bool)
        ensures
            r == self@.pressed,
    {
        self.is_pressed
    }

    pub fn is_right_clicked(&self) -> (r: bool)
        ensures
            r == self@.right_clicked,
    {
        self.is_right_clicked
    }
}

/// How one mouse button stands in the current sample: untouched, held,
/// released this frame, or pressed this frame.
#[derive(Debug, Clone, Copy, PartialEq, Eq, Structural)]
pub enum MouseButtonState {
    Up,
    Down,
    Released,
    Pressed,
}

impl Default for MouseButtonState {
    fn default() -> (r: Self)
        ensures
            r == MouseButtonState::Up,
    {
        MouseButtonState::Up
    }
}

/// The pointer half of an input sample.
#[derive(Debug, Clone, Copy, PartialEq, Eq, Structural)]
pub struct MouseInput {
    pub mouse_position: crate::geometry::Point2D,
    pub mouse_delta: crate::geometry::Point2D,
    pub left_button: MouseButtonState,
    pub right_button: MouseButtonState,
    pub middle_button: MouseButtonState,
}

impl Default for MouseInput {
    fn default() -> (r: Self)
        ensures
            r == (MouseInput {
                mouse_position: crate::geometry::Point2D { x: 0i64, y: 0i64 },
                mouse_delta: crate::geometry::Point2D { x: 0i64, y: 0i64 },
                left_button: MouseButtonState::Up,
                right_button: MouseButtonState::Up,
                middle_button: MouseButtonState::Up,
            }),
    {
        MouseInput {
            mouse_position: crate::geometry::Point2D { x: 0, y: 0 },
            mouse_delta: crate::geometry::Point2D { x: 0, y: 0 },
            left_button: MouseButtonState::Up,
            right_button: MouseButtonState::Up,
            middle_button: MouseButtonState::Up,
        }
    }
}

/// The keyboard half of an input sample.
#[derive(Debug)]
pub struct KeyboardInput {
    pub keys_pressed: Vec<u16>,
    pub last_char_pressed: Option<char>,
    pub last_key_pressed: Option<u16>,
    pub shift_down: bool,
    pub ctrl_down: bool,
    pub alt_down: bool,
    pub super_down: bool,
}

impl Default for KeyboardInput {
    fn default() -> (r: Self)
        ensures
            r.keys_pressed@ == Seq::<u16>::empty(),
            r.last_char_pressed is None,
            r.last_key_pressed is None,
            !r.shift_down,
            !r.ctrl_down,
            !r.alt_down,
            !r.super_down,
    {
        KeyboardInput {
            keys_pressed: Vec::new(),
            last_char_pressed: Option::None,
            last_key_pressed: Option::None,
            shift_down: false,
            ctrl_down: false,
            alt_down: false,
            super_down: false,
        }
    }
}

/// One frame's raw input sample.
#[derive(Debug)]
pub struct InputState {
    pub mouse: MouseInput,
    pub keyboard: KeyboardInput,
}

impl Default for InputState {
    fn default() -> (r: Self)
        ensures
            r.mouse == (MouseInput {
                mouse_position: crate::geometry::Point2D { x: 0i64, y: 0i64 },
                mouse_delta: crate::geometry::Point2D { x: 0i64, y: 0i64 },
                left_button: MouseButtonState::Up,
                right_button: MouseButtonState::Up,
                middle_button: MouseButtonState::Up,
            }),
            r.keyboard.keys_pressed@ == Seq::<u16>::empty(),
    {
        InputState { mouse: MouseInput::default(), keyboard: KeyboardInput::default() }
    }
}

/// The stored interaction records, read as a map from element id to record.
pub open spec fn states_map(s: Seq<ElementState>) -> Map<Seq<char>, ElementStateModel>
    decreases s.len(),
{
    if s.len() == 0 {
        Map::empty()
    } else {
        states_map(s.drop_last()).insert(s.last()@.id, s.last()@)
    }
}

pub open spec fn states_unique(s: Seq<ElementState>) -> bool {
    forall|i: int, j: int| 0 <= i < j < s.len() ==> (#[trigger] s[i])@.id != (#[trigger] s[j])@.id
}

proof fn lemma_states_map_found(s: Seq<ElementState>, k: Seq<char>, i: int)
    requires
        states_unique(s),
        0 <= i < s.len(),
        s[i]@.id == k,
    ensures
        states_map(s).contains_key(k),
        states_map(s)[k] == s[i]@,
    decreases s.len(),
{
    if i == s.len() - 1 {
    } else {
        assert(s.drop_last()[i] == s[i]);
        assert(states_unique(s.drop_last())) by {
            assert forall|p: int, q: int|
                0 <= p < q < s.drop_last().len() implies (#[trigger] s.drop_last()[p])@.id != (
            #[trigger] s.drop_last()[q])@.id by {
                assert(s.drop_last()[p] == s[p]);
                assert(s.drop_last()[q] == s[q]);
            }
        }
        lemma_states_map_found(s.drop_last(), k, i);
        assert(s.last()@.id != k);
    }
}

proof fn lemma_states_map_missing(s: Seq<ElementState>, k: Seq<char>)
    requires
        forall|i: int| 0 <= i < s.len() ==> (#[trigger] s[i])@.id != k,
    ensures
        !states_map(s).contains_key(k),
    decreases s.len(),
{
    if s.len() > 0 {
        assert forall|i: int| 0 <= i < s.drop_last().len() implies (#[trigger] s.drop_last()[i])@.id
            != k by {
            assert(s.drop_last()[i] == s[i]);
        }
        lemma_states_map_missing(s.drop_last(), k);
    }
}

proof fn lemma_states_map_update(s: Seq<ElementState>, i: int, p: ElementState)
    requires
        states_unique(s),
        0 <= i < s.len(),
        s[i]@.id == p@.id,
    ensures
        states_map(s.update(i, p)) == states_map(s).insert(p@.id, p@),
        states_unique(s.update(i, p)),
    decreases s.len(),
{
    if i == s.len() - 1 {
        assert(s.update(i, p).drop_last() =~= s.drop_last());
        assert(states_map(s.update(i, p)) =~= states_map(s).insert(p@.id, p@));
    } else {
        assert(s.update(i, p).drop_last() =~= s.drop_last().update(i, p));
        assert(s.drop_last()[i] == s[i]);
        assert(states_unique(s.drop_last())) by {
            assert forall|a: int, b: int|
                0 <= a < b < s.drop_last().len() implies (#[trigger] s.drop_last()[a])@.id != (
            #[trigger] s.drop_last()[b])@.id by {
                assert(s.drop_last()[a] == s[a]);
                assert(s.drop_last()[b] == s[b]);
            }
        }
        lemma_states_map_update(s.drop_last(), i, p);
        assert(s.update(i, p).last() == s.last());
        assert(s.last()@.id != p@.id);
        assert(states_map(s.update(i, p)) =~= states_map(s).insert(p@.id, p@));
        assert forall|a: int, b: int|
            0 <= a < b < s.update(i, p).len() implies (#[trigger] s.update(i, p)[a])@.id != (
        #[trigger] s.update(i, p)[b])@.id by {
            assert(s.update(i, p)[a]@.id == s[a]@.id);
            assert(s.update(i, p)[b]@.id == s[b]@.id);
        }
    }
}

/// The keys the engine can name in a portable way.
#[derive(Debug, Clone, Copy, PartialEq, Eq, Structural)]
#[allow(non_camel_case_types)]
pub enum RlayKeyboardKey {
    KEY_NULL,
    KEY_APOSTROPHE,
    KEY_COMMA,
    KEY_MINUS,
    KEY_PERIOD,
    KEY_SLASH,
    KEY_ZERO,
    KEY_ONE,
    KEY_TWO,
    KEY_THREE,
    KEY_FOUR,
    KEY_FIVE,
    KEY_SIX,
    KEY_SEVEN,
    KEY_EIGHT,
    KEY_NINE,
    KEY_SEMICOLON,
    KEY_EQUAL,
    KEY_A,
    KEY_B,
    KEY_C,
    KEY_D,
    KEY_E,
    KEY_F,
    KEY_G,
    KEY_H,
    KEY_I,
    KEY_J,
    KEY_K,
    KEY_L,
    KEY_M,
    KEY_N,
    KEY_O,
    KEY_P,
    KEY_Q,
    KEY_R,
    KEY_S,
    KEY_T,
    KEY_U,
    KEY_V,
    KEY_W,
    KEY_X,
    KEY_Y,
    KEY_Z,
    KEY_LEFT_BRACKET,
    KEY_BACKSLASH,
    KEY_RIGHT_BRACKET,
    KEY_GRAVE,
    KEY_SPACE,
    KEY_ESCAPE,
    KEY_ENTER,
    KEY_TAB,
    KEY_BACKSPACE,
    KEY_INSERT,
    KEY_DELETE,
    KEY_RIGHT,
    KEY_LEFT,
    KEY_DOWN,
    KEY_UP,
    KEY_PAGE_UP,
    KEY_PAGE_DOWN,
    KEY_HOME,
    KEY_END,
    KEY_CAPS_LOCK,
    KEY_SCROLL_LOCK,
    KEY_NUM_LOCK,
    KEY_PRINT_SCREEN,
    KEY_PAUSE,
    KEY_F1,
    KEY_F2,
    KEY_F3,
    KEY_F4,
    KEY_F5,
    KEY_F6,
    KEY_F7,
    KEY_F8,
    KEY_F9,
    KEY_F10,
    KEY_F11,
    KEY_F12,
    KEY_LEFT_SHIFT,
    KEY_LEFT_CONTROL,
    KEY_LEFT_ALT,
    KEY_LEFT_SUPER,
    KEY_RIGHT_SHIFT,
    KEY_RIGHT_CONTROL,
    KEY_RIGHT_ALT,
    KEY_RIGHT_SUPER,
    KEY_KB_MENU,
    KEY_KP_0,
    KEY_KP_1,
    KEY_KP_2,
    KEY_KP_3,
    KEY_KP_4,
    KEY_KP_5,
    KEY_KP_6,
    KEY_KP_7,
    KEY_KP_8,
    KEY_KP_9,
    KEY_KP_DECIMAL,
    KEY_KP_DIVIDE,
    KEY_KP_MULTIPLY,
    KEY_KP_SUBTRACT,
    KEY_KP_ADD,
    KEY_KP_ENTER,
    KEY_KP_EQUAL,
    KEY_BACK,
    KEY_MENU,
    KEY_VOLUME_UP,
    KEY_VOLUME_DOWN,
}

/// The abstract content of the interaction store.
pub struct AppStateModel {
    pub hovered: Set<Seq<char>>,
    pub active: Set<Seq<char>>,
    pub focusable: Set<Seq<char>>,
    pub focused: Option<Seq<char>>,
    pub states: Map<Seq<char>, ElementStateModel>,
    pub mouse: MouseInput,
    pub keys: Seq<u16>,
    pub init: bool,
}

/// Whether the record for `id` is marked clicked; an absent record counts
/// as not clicked.
pub open spec fn st_clicked(m: Map<Seq<char>, ElementStateModel>, id: Seq<char>) -> bool {
    m.contains_key(id) && m[id].clicked
}

pub open spec fn st_pressed(m: Map<Seq<char>, ElementStateModel>, id: Seq<char>) -> bool {
    m.contains_key(id) && m[id].pressed
}

pub open spec fn st_right_clicked(m: Map<Seq<char>, ElementStateModel>, id: Seq<char>) -> bool {
    m.contains_key(id) && m[id].right_clicked
}

/// What one interaction pass does, given the finished layout `t`: before
/// the first real input sample nothing moves; afterwards the hovered and
/// focusable sets are recomputed from the cursor, the transient marks of
/// every hovered element are set from the button edges, elements that were
/// hovered and no longer are lose their transient marks, everything else -
/// attributes, flags, focus, the input sample itself - stays.
pub open spec fn update_post(
    pre: AppStateModel,
    post: AppStateModel,
    t: crate::layout::LayoutModel,
) -> bool {
    if !pre.init {
        post == pre
    } else {
        let cx = pre.mouse.mouse_position.x as int;
        let cy = pre.mouse.mouse_position.y as int;
        let hov = hovered_ids(t, cx, cy);
        let lc = pre.mouse.left_button is Released;
        let rc = pre.mouse.right_button is Released;
        let pr = pre.mouse.left_button is Down;
        &&& post.hovered == hov
        &&& post.focusable == focusables_seen(t, cx, cy)
        &&& post.active == if pr {
            pre.active.union(hov)
        } else {
            Set::<Seq<char>>::empty()
        }
        &&& post.focused == pre.focused
        &&& post.mouse == pre.mouse
        &&& post.keys == pre.keys
        &&& post.init == pre.init
        &&& forall|id: Seq<char>|
            #![trigger post.states.contains_key(id)]
            {
                &&& st_clicked(post.states, id) == if hov.contains(id) {
                    lc
                } else if pre.hovered.contains(id) {
                    false
                } else {
                    st_clicked(pre.states, id)
                }
                &&& st_pressed(post.states, id) == if hov.contains(id) {
                    pr
                } else if pre.hovered.contains(id) {
                    false
                } else {
                    st_pressed(pre.states, id)
                }
                &&& st_right_clicked(post.states, id) == if hov.contains(id) {
                    rc
                } else if pre.hovered.contains(id) {
                    false
                } else {
                    st_right_clicked(pre.states, id)
                }
                &&& (post.states.contains_key(id) <==> pre.states.contains_key(id) || hov.contains(
                    id,
                ) || pre.hovered.contains(id))
                &&& (post.states.contains_key(id) ==> {
                    &&& post.states[id].attrs == if pre.states.contains_key(id) {
                        pre.states[id].attrs
                    } else {
                        Map::<Seq<char>, Seq<char>>::empty()
                    }
                    &&& post.states[id].flags == if pre.states.contains_key(id) {
                        pre.states[id].flags
                    } else {
                        Map::<Seq<char>, bool>::empty()
                    }
                })
            }
    }
}

/// A fresh, empty interaction record for `id`.
pub open spec fn empty_state_model(id: Seq<char>) -> ElementStateModel {
    ElementStateModel {
        id,
        clicked: false,
        pressed: false,
        right_clicked: false,
        attrs: Map::empty(),
        flags: Map::empty(),
    }
}

/// The cross-frame interaction store: which elements the pointer is over,
/// which are active or focusable, the focused element, every element's
/// record, and the latest input sample.
pub struct AppState {
    hovered: Vec<String>,
    active: Vec<String>,
    focusable: Vec<String>,
    focused: Option<String>,
    element_state: Vec<ElementState>,
    input_state: InputState,
    input_state_init: bool,
}

impl View for AppState {
    type V = AppStateModel;

    closed spec fn view(&self) -> AppStateModel {
        AppStateModel {
            hovered: set_of(self.hovered@),
            active: set_of(self.active@),
            focusable: set_of(self.focusable@),
            focused: match self.focused {
                Option::Some(s) => Option::Some(s@),
                Option::None => Option::None,
            },
            states: states_map(self.element_state@),
            mouse: self.input_state.mouse,
            keys: self.input_state.keyboard.keys_pressed@,
            init: self.input_state_init,
        }
    }
}

impl AppState {
    /// The id rows hold no id twice and every stored record is well formed.
    pub closed spec fn wf(&self) -> bool {
        &&& ids_unique(self.hovered@)
        &&& ids_unique(self.active@)
        &&& ids_unique(self.focusable@)
        &&& states_unique(self.element_state@)
        &&& forall|i: int| 0 <= i < self.element_state@.len() ==> (#[trigger] self.element_state@[i]).wf()
    }

    pub fn new() -> (r: Self)
        ensures
            r.wf(),
            r@.hovered == Set::<Seq<char>>::empty(),
            r@.active == Set::<Seq<char>>::empty(),
            r@.focusable == Set::<Seq<char>>::empty(),
            r@.focused is None,
            r@.states == Map::<Seq<char>, ElementStateModel>::empty(),
            !r@.init,
    {
        AppState {
            hovered: Vec::new(),
            active: Vec::new(),
            focusable: Vec::new(),
            focused: Option::None,
            element_state: Vec::new(),
            input_state: InputState::default(),
            input_state_init: false,
        }
    }

    pub fn is_hovered(&self, element_id: &str) -> (r: bool)
        ensures
            r == self@.hovered.contains(element_id@),
    {
        seq_contains_id(&self.hovered, element_id)
    }

    pub fn is_active(&self, element_id: &str) -> (r: bool)
        ensures
            r == self@.active.contains(element_id@),
    {
        seq_contains_id(&self.active, element_id)
    }

    pub fn is_focused(&self, element_id: &str) -> (r: bool)
        ensures
            r == (self@.focused matches Some(f) && f == element_id@),
    {
        match &self.focused {
            Option::Some(f) => str_eq(f.as_str(), element_id),
            Option::None => false,
        }
    }

    pub fn set_focused(&mut self, element_id: Option<String>)
        requires
            old(self).wf(),
        ensures
            final(self).wf(),
            final(self)@ == (AppStateModel {
                focused: match element_id {
                    Option::Some(s) => Option::Some(s@),
                    Option::None => Option::None,
                },
                ..old(self)@
            }),
    {
        self.focused = element_id;
    }

    pub fn get_element_state(&self, element_id: &str) -> (r: Option<&ElementState>)
        requires
            self.wf(),
        ensures
            r is Some <==> self@.states.contains_key(element_id@),
            r matches Some(st) ==> st@ == self@.states[element_id@] && st.wf(),
    {
        let n = self.element_state.len();
        let mut i: usize = 0;
        while i < n
            invariant
                self.wf(),
                n == self.element_state@.len(),
                i <= n,
                forall|j: int| 0 <= j < i ==> (#[trigger] self.element_state@[j])@.id != element_id@,
            decreases n - i,
        {
            if str_eq(self.element_state[i].id_str(), element_id) {
                proof {
                    lemma_states_map_found(self.element_state@, element_id@, i as int);
                }
                return Option::Some(&self.element_state[i]);
            }
            i += 1;
        }
        proof {
            lemma_states_map_missing(self.element_state@, element_id@);
        }
        Option::None
    }

    /// The index of the record for `element_id`, creating an empty record
    /// when none is stored yet.
    fn ensure_state_idx(&mut self, element_id: &str) -> (i: usize)
        requires
            old(self).wf(),
        ensures
            final(self).wf(),
            final(self)@ == (AppStateModel {
                states: if old(self)@.states.contains_key(element_id@) {
                    old(self)@.states
                } else {
                    old(self)@.states.insert(element_id@, empty_state_model(element_id@))
                },
                ..old(self)@
            }),
            i < final(self).element_state@.len(),
            final(self).element_state@[i as int]@.id == element_id@,
            final(self).element_state@[i as int]@ == final(self)@.states[element_id@],
            final(self).hovered@ == old(self).hovered@,
            final(self).active@ == old(self).active@,
            final(self).focusable@ == old(self).focusable@,
    {
        let n = self.element_state.len();
        let mut i: usize = 0;
        while i < n
            invariant
                self.wf(),
                self@ == old(self)@,
                self.element_state@ == old(self).element_state@,
                n == self.element_state@.len(),
                i <= n,
                forall|j: int| 0 <= j < i ==> (#[trigger] self.element_state@[j])@.id != element_id@,
            decreases n - i,
        {
            if str_eq(self.element_state[i].id_str(), element_id) {
                proof {
                    lemma_states_map_found(self.element_state@, element_id@, i as int);
                    assert(self@.states.insert(element_id@, self@.states[element_id@]) =~= self@.states);
                }
                return i;
            }
            i += 1;
        }
        proof {
            lemma_states_map_missing(self.element_state@, element_id@);
        }
        let ghost pre = self.element_state@;
        self.element_state.push(ElementState::new(element_id.to_owned()));
        proof {
            assert(self.element_state@.drop_last() =~= pre);
            assert(self.element_state@.last()@ == empty_state_model(element_id@));
            assert forall|a: int, b: int|
                0 <= a < b < self.element_state@.len() implies (
            #[trigger] self.element_state@[a])@.id != (#[trigger] self.element_state@[b])@.id by {
                if b < self.element_state@.len() - 1 {
                    assert(self.element_state@[a] == pre[a]);
                    assert(self.element_state@[b] == pre[b]);
                } else {
                    assert(self.element_state@[a] == pre[a]);
                }
            }
            assert forall|j: int| 0 <= j < self.element_state@.len() implies (
            #[trigger] self.element_state@[j]).wf() by {
                if j < self.element_state@.len() - 1 {
                    assert(self.element_state@[j] == pre[j]);
                }
            }
        }
        n
    }

    /// Stores a flag on the element's record, creating the record if need
    /// be, and hands back the flag value it replaces; absent counts false.
    pub fn set_flag(&mut self, element_id: &str, flag: String, value: bool) -> (r: bool)
        requires
            old(self).wf(),
        ensures
            final(self).wf(),
            final(self)@ == (AppStateModel {
                states: old(self)@.states.insert(
                    element_id@,
                    ElementStateModel {
                        flags: (if old(self)@.states.contains_key(element_id@) {
                            old(self)@.states[element_id@]
                        } else {
                            empty_state_model(element_id@)
                        }).flags.insert(flag@, value),
                        ..(if old(self)@.states.contains_key(element_id@) {
                            old(self)@.states[element_id@]
                        } else {
                            empty_state_model(element_id@)
                        })
                    },
                ),
                ..old(self)@
            }),
            r == {
                let base = if old(self)@.states.contains_key(element_id@) {
                    old(self)@.states[element_id@]
                } else {
                    empty_state_model(element_id@)
                };
                base.flags.contains_key(flag@) && base.flags[flag@]
            },
    {
        let i = self.ensure_state_idx(element_id);
        let ghost pre = self.element_state@;
        let st = &mut self.element_state[i];
        let r = st.set_flag(flag, value);
        proof {
            lemma_states_map_update(pre, i as int, self.element_state@[i as int]);
            assert forall|j: int| 0 <= j < self.element_state@.len() implies (
            #[trigger] self.element_state@[j]).wf() by {
                if j != i {
                    assert(self.element_state@[j] == pre[j]);
                }
            }
            assert(self@.states =~= old(self)@.states.insert(
                element_id@,
                self.element_state@[i as int]@,
            ));
        }
        r
    }

    /// Reads a flag from the element's record; an absent record or flag
    /// reads as false.
    pub fn get_flag(&self, element_id: &str, flag: &str) -> (r: bool)
        requires
            self.wf(),
        ensures
            r == (self@.states.contains_key(element_id@) && self@.states[element_id@].flags.contains_key(flag@)
                && self@.states[element_id@].flags[flag@]),
    {
        match self.get_element_state(element_id) {
            Option::Some(st) => st.get_flag(&flag.to_owned()),
            Option::None => false,
        }
    }

    /// Stores an attribute on the element's record, creating the record if
    /// need be, and hands back the value it replaces.
    pub fn set_attr(&mut self, element_id: &str, attr: String, value: String) -> (r: Option<String>)
        requires
            old(self).wf(),
        ensures
            final(self).wf(),
            final(self)@ == (AppStateModel {
                states: old(self)@.states.insert(
                    element_id@,
                    ElementStateModel {
                        attrs: (if old(self)@.states.contains_key(element_id@) {
                            old(self)@.states[element_id@]
                        } else {
                            empty_state_model(element_id@)
                        }).attrs.insert(attr@, value@),
                        ..(if old(self)@.states.contains_key(element_id@) {
                            old(self)@.states[element_id@]
                        } else {
                            empty_state_model(element_id@)
                        })
                    },
                ),
                ..old(self)@
            }),
            r is Some <==> {
                let base = if old(self)@.states.contains_key(element_id@) {
                    old(self)@.states[element_id@]
                } else {
                    empty_state_model(element_id@)
                };
                base.attrs.contains_key(attr@)
            },
    {
        let i = self.ensure_state_idx(element_id);
        let ghost pre = self.element_state@;
        let st = &mut self.element_state[i];
        let r = st.set_attr(attr, value);
        proof {
            lemma_states_map_update(pre, i as int, self.element_state@[i as int]);
            assert forall|j: int| 0 <= j < self.element_state@.len() implies (
            #[trigger] self.element_state@[j]).wf() by {
                if j != i {
                    assert(self.element_state@[j] == pre[j]);
                }
            }
            assert(self@.states =~= old(self)@.states.insert(
                element_id@,
                self.element_state@[i as int]@,
            ));
        }
        r
    }

    /// Reads an attribute from the element's record.
    pub fn get_attr(&self, element_id: &str, attr: &str) -> (r: Option<&String>)
        requires
            self.wf(),
        ensures
            r is Some <==> (self@.states.contains_key(element_id@)
                && self@.states[element_id@].attrs.contains_key(attr@)),
            r matches Some(v) ==> v@ == self@.states[element_id@].attrs[attr@],
    {
        match self.get_element_state(element_id) {
            Option::Some(st) => st.get_attr(&attr.to_owned()),
            Option::None => Option::None,
        }
    }

    pub fn is_clicked(&self, element_id: &str) -> (r: bool)
        requires
            self.wf(),
        ensures
            r == st_clicked(self@.states, element_id@),
    {
        match self.get_element_state(element_id) {
            Option::Some(st) => st.is_clicked(),
            Option::None => false,
        }
    }

    pub fn is_pressed(&self, element_id: &str) -> (r: bool)
        requires
            self.wf(),
        ensures
            r == st_pressed(self@.states, element_id@),
    {
        match self.get_element_state(element_id) {
            Option::Some(st) => st.is_pressed(),
            Option::None => false,
        }
    }

    pub fn is_right_clicked(&self, element_id: &str) -> (r: bool)
        requires
            self.wf(),
        ensures
            r == st_right_clicked(self@.states, element_id@),
    {
        match self.get_element_state(element_id) {
            Option::Some(st) => st.is_right_clicked(),
            Option::None => false,
        }
    }

    pub fn input_state(&self) -> (r: &InputState)
        ensures
            r.mouse == self@.mouse,
            r.keyboard.keys_pressed@ == self@.keys,
    {
        &self.input_state
    }

    /// Stores the frame's input sample; the very first sample away from the
    /// origin arms the interaction pass.
    pub fn set_input_state(&mut self, input_state: InputState)
        requires
            old(self).wf(),
        ensures
            final(self).wf(),
            final(self)@ == (AppStateModel {
                mouse: input_state.mouse,
                keys: input_state.keyboard.keys_pressed@,
                init: old(self)@.init || !(input_state.mouse.mouse_position == (
                crate::geometry::Point2D { x: 0i64, y: 0i64 })),
                ..old(self)@
            }),
    {
        self.input_state = input_state;
        if !(self.input_state.mouse.mouse_position.x == 0 && self.input_state.mouse.mouse_position.y
            == 0) {
            self.input_state_init = true;
        }
    }
}

impl AppState {
    /// One interaction pass over the finished layout: recomputes which
    /// elements the cursor is over, resets the transient marks of elements
    /// it left, and sets the marks of hovered elements from this frame's
    /// button edges.
    pub fn update_hovered_elements(&mut self, element: &ElementLayout)
        requires
            old(self).wf(),
        ensures
            final(self).wf(),
            update_post(old(self)@, final(self)@, element@),
    {
        if !self.input_state_init {
            return ;
        }
        let ghost pre = self@;
        let cx = self.input_state.mouse.mouse_position.x;
        let cy = self.input_state.mouse.mouse_position.y;
        let n0 = self.hovered.len();
        let ghost hl0 = self.hovered@;
        proof {
            assert(pre.hovered == set_of(hl0));
        }
        let mut i: usize = 0;
        while i < n0
            invariant
                self.wf(),
                n0 == self.hovered@.len(),
                self.hovered@ == hl0,
                i <= n0,
                self@.hovered == pre.hovered,
                self@.active == pre.active,
                self@.focusable == pre.focusable,
                self@.focused == pre.focused,
                self@.mouse == pre.mouse,
                self@.keys == pre.keys,
                self@.init == pre.init,
                pre.hovered == set_of(hl0),
                forall|id: Seq<char>|
                    #![all_triggers]
                    {
                        &&& (self@.states.contains_key(id) <==> pre.states.contains_key(id)
                            || set_of(hl0.take(i as int)).contains(id))
                        &&& st_clicked(self@.states, id) == (!set_of(hl0.take(i as int)).contains(
                            id,
                        ) && st_clicked(pre.states, id))
                        &&& st_pressed(self@.states, id) == (!set_of(hl0.take(i as int)).contains(
                            id,
                        ) && st_pressed(pre.states, id))
                        &&& st_right_clicked(self@.states, id) == (!set_of(
                            hl0.take(i as int),
                        ).contains(id) && st_right_clicked(pre.states, id))
                        &&& (self@.states.contains_key(id) ==> {
                            &&& self@.states[id].attrs == if pre.states.contains_key(id) {
                                pre.states[id].attrs
                            } else {
                                Map::<Seq<char>, Seq<char>>::empty()
                            }
                            &&& self@.states[id].flags == if pre.states.contains_key(id) {
                                pre.states[id].flags
                            } else {
                                Map::<Seq<char>, bool>::empty()
                            }
                        })
                    },
            decreases n0 - i,
        {
            let id = self.hovered[i].clone();
            let gi = self.ensure_state_idx(id.as_str());
            let ghost prev_states = self@.states;
            let ghost prev = self.element_state@;
            let st = &mut self.element_state[gi];
            st.reset();
            proof {
                lemma_states_map_update(prev, gi as int, self.element_state@[gi as int]);
                assert forall|j: int| 0 <= j < self.element_state@.len() implies (
                #[trigger] self.element_state@[j]).wf() by {
                    if j != gi {
                        assert(self.element_state@[j] == prev[j]);
                    }
                }
                assert(hl0.take(i + 1 as int).drop_last() =~= hl0.take(i as int));
                assert(hl0.take(i + 1 as int).last() == hl0[i as int]);
                assert(set_of(hl0.take(i + 1 as int)) =~= set_of(hl0.take(i as int)).insert(id@));
            }
            i += 1;
        }
        proof {
            assert(hl0.take(n0 as int) =~= hl0);
        }
        let ghost mid = self@;
        let left_clicked = matches!(self.input_state.mouse.left_button, MouseButtonState::Released);
        let right_clicked = matches!(
            self.input_state.mouse.right_button,
            MouseButtonState::Released
        );
        let pressed = matches!(self.input_state.mouse.left_button, MouseButtonState::Down);
        if !pressed {
            self.active.clear();
            proof {
                assert(set_of(self.active@) =~= Set::<Seq<char>>::empty());
            }
        }
        self.hovered.clear();
        self.focusable.clear();
        proof {
            assert(set_of(self.hovered@) =~= Set::<Seq<char>>::empty());
            assert(set_of(self.focusable@) =~= Set::<Seq<char>>::empty());
        }
        crate::layout::collect_hovered(element, cx, cy, &mut self.hovered, &mut self.focusable);
        let ghost hov = hovered_ids(element@, cx as int, cy as int);
        let ghost foc = focusables_seen(element@, cx as int, cy as int);
        proof {
            assert(set_of(self.hovered@) =~= hov);
            assert(set_of(self.focusable@) =~= foc);
        }
        let ghost hl1 = self.hovered@;
        let ghost active_base = set_of(self.active@);
        let n1 = self.hovered.len();
        let mut k: usize = 0;
        while k < n1
            invariant
                self.wf(),
                n1 == self.hovered@.len(),
                self.hovered@ == hl1,
                k <= n1,
                set_of(hl1) == hov,
                self@.hovered == hov,
                self@.focusable == foc,
                self@.focused == mid.focused,
                self@.mouse == mid.mouse,
                self@.keys == mid.keys,
                self@.init == mid.init,
                active_base == (if pressed {
                    pre.active
                } else {
                    Set::<Seq<char>>::empty()
                }),
                set_of(self.active@) == (if pressed {
                    active_base.union(set_of(hl1.take(k as int)))
                } else {
                    Set::<Seq<char>>::empty()
                }),
                forall|id: Seq<char>|
                    #![all_triggers]
                    {
                        &&& (self@.states.contains_key(id) <==> mid.states.contains_key(id)
                            || set_of(hl1.take(k as int)).contains(id))
                        &&& st_clicked(self@.states, id) == (if set_of(hl1.take(k as int)).contains(
                            id,
                        ) {
                            left_clicked
                        } else {
                            st_clicked(mid.states, id)
                        })
                        &&& st_pressed(self@.states, id) == (if set_of(hl1.take(k as int)).contains(
                            id,
                        ) {
                            pressed
                        } else {
                            st_pressed(mid.states, id)
                        })
                        &&& st_right_clicked(self@.states, id) == (if set_of(
                            hl1.take(k as int),
                        ).contains(id) {
                            right_clicked
                        } else {
                            st_right_clicked(mid.states, id)
                        })
                        &&& (self@.states.contains_key(id) ==> {
                            &&& self@.states[id].attrs == if mid.states.contains_key(id) {
                                mid.states[id].attrs
                            } else {
                                Map::<Seq<char>, Seq<char>>::empty()
                            }
                            &&& self@.states[id].flags == if mid.states.contains_key(id) {
                                mid.states[id].flags
                            } else {
                                Map::<Seq<char>, bool>::empty()
                            }
                        })
                    },
            decreases n1 - k,
        {
            let id = self.hovered[k].clone();
            let gi = self.ensure_state_idx(id.as_str());
            let ghost prev = self.element_state@;
            let st = &mut self.element_state[gi];
            st.set_transients(left_clicked, pressed, right_clicked);
            proof {
                lemma_states_map_update(prev, gi as int, self.element_state@[gi as int]);
                assert forall|j: int| 0 <= j < self.element_state@.len() implies (
                #[trigger] self.element_state@[j]).wf() by {
                    if j != gi {
                        assert(self.element_state@[j] == prev[j]);
                    }
                }
                assert(hl1.take(k + 1 as int).drop_last() =~= hl1.take(k as int));
                assert(hl1.take(k + 1 as int).last() == hl1[k as int]);
                assert(set_of(hl1.take(k + 1 as int)) =~= set_of(hl1.take(k as int)).insert(id@));
            }
            if pressed {
                let ghost pre_active = self.active@;
                insert_id(&mut self.active, id);
                proof {
                    assert(set_of(self.active@) =~= active_base.union(
                        set_of(hl1.take(k + 1 as int)),
                    ));
                }
            } else {
                proof {
                    assert(set_of(hl1.take(k + 1 as int)) == set_of(hl1.take(k as int)).insert(
                        hl1[k as int]@,
                    ));
                }
            }
            k += 1;
        }
        proof {
            assert(hl1.take(n1 as int) =~= hl1);
            if pressed {
                assert(self@.active =~= pre.active.union(hov));
            }
            assert forall|id: Seq<char>|
                #![all_triggers]
                {
                    &&& st_clicked(self@.states, id) == (if hov.contains(id) {
                        left_clicked
                    } else if pre.hovered.contains(id) {
                        false
                    } else {
                        st_clicked(pre.states, id)
                    })
                    &&& st_pressed(self@.states, id) == (if hov.contains(id) {
                        pressed
                    } else if pre.hovered.contains(id) {
                        false
                    } else {
                        st_pressed(pre.states, id)
                    })
                    &&& st_right_clicked(self@.states, id) == (if hov.contains(id) {
                        right_clicked
                    } else if pre.hovered.contains(id) {
                        false
                    } else {
                        st_right_clicked(pre.states, id)
                    })
                    &&& (self@.states.contains_key(id) <==> pre.states.contains_key(id)
                        || hov.contains(id) || pre.hovered.contains(id))
                    &&& (self@.states.contains_key(id) ==> {
                        &&& self@.states[id].attrs == if pre.states.contains_key(id) {
                            pre.states[id].attrs
                        } else {
                            Map::<Seq<char>, Seq<char>>::empty()
                        }
                        &&& self@.states[id].flags == if pre.states.contains_key(id) {
                            pre.states[id].flags
                        } else {
                            Map::<Seq<char>, bool>::empty()
                        }
                    })
                } by {
                assert(mid.states.contains_key(id) <==> pre.states.contains_key(id)
                    || pre.hovered.contains(id));
            }
            assert(update_post(pre, self@, element@));
        }
    }
}

/// A click is edge-triggered: over a press-then-release on a hovered
/// element, the element is not clicked on the frame of the press itself, is
/// clicked on the frame of the release, and is no longer clicked on the
/// frame after - one frame exactly.
pub proof fn lemma_click_single_frame(
    press: AppStateModel,
    s1: AppStateModel,
    release: AppStateModel,
    s2: AppStateModel,
    after: AppStateModel,
    s3: AppStateModel,
    t: crate::layout::LayoutModel,
    id: Seq<char>,
)
    requires
        press.init,
        press.mouse.left_button is Down,
        update_post(press, s1, t),
        hovered_ids(
            t,
            press.mouse.mouse_position.x as int,
            press.mouse.mouse_position.y as int,
        ).contains(id),
        release.init,
        release.mouse.left_button is Released,
        release.states == s1.states,
        release.hovered == s1.hovered,
        update_post(release, s2, t),
        hovered_ids(
            t,
            release.mouse.mouse_position.x as int,
            release.mouse.mouse_position.y as int,
        ).contains(id),
        after.init,
        !(after.mouse.left_button is Released),
        after.states == s2.states,
        after.hovered == s2.hovered,
        update_post(after, s3, t),
    ensures
        !st_clicked(s1.states, id),
        st_clicked(s2.states, id),
        !st_clicked(s3.states, id),
{
    assert(s1.states.contains_key(id) || !s1.states.contains_key(id));
    assert(s2.states.contains_key(id) || !s2.states.contains_key(id));
    assert(s3.states.contains_key(id) || !s3.states.contains_key(id));
}

} // verus!
