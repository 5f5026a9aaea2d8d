use vstd::prelude::*;
use vstd::string::StringExecFns;

use crate::config::TextConfig;
use crate::decimal::spec_decimal;
use crate::decimal::usize_to_decimal;
use crate::element::spec_eq_element;
use crate::element::Element;
use crate::err::RlayError;
use crate::geometry::sat;
use crate::geometry::sat64;
use crate::geometry::Dimension2D;
use crate::geometry::Point2D;
use crate::geometry::COORD_MAX;
use crate::layout::bounded;
use crate::layout::calculate_layout;
use crate::layout::check_tree;
use crate::layout::configs_wf;
use crate::layout::pipeline_ok;
use crate::layout::ElementLayout;
use crate::layout::LayoutModel;
use crate::mem::forward_linked;
use crate::mem::ArenaElement;
use crate::mem::NodeModel;
use crate::state::AppState;
use crate::state::AppStateModel;
use crate::state::ElementState;
use crate::state::InputState;
use crate::state::update_post;

verus! {

/// Measures a piece of text: hands back the width and height the text will
/// take on screen. Text shaping lives outside the engine; any measurer the
/// caller supplies is taken as it is, and the layout holds for whatever
/// sizes it reports.
pub trait TextMeasurer {
    fn measure(&mut self, data: &String, config: &TextConfig) -> (i64, i64);
}

/// A plain measurer that sizes text from its length and font size alone:
/// one advance of half the font size per character, one line high.
pub struct GlyphCountMeasurer {
}

impl TextMeasurer for GlyphCountMeasurer {
    fn measure(&mut self, data: &String, config: &TextConfig) -> (r: (i64, i64)) {
        let glyphs = data.as_str().unicode_len();
        let advance: i64 = (config.font_size as i64) / 2 + (config.letter_spacing as i64);
        proof {
            assert((glyphs as i128) * (advance as i128)
                <= 0x2000_0000_0000_0000_0000_0000_0000_0000i128) by (nonlinear_arith)
                requires
                    0 <= glyphs as i128 <= 0x1_0000_0000_0000_0000i128,
                    0 <= advance as i128 <= 0x2_0000i128,
            ;
            assert((glyphs as i128) * (advance as i128) >= 0) by (nonlinear_arith)
                requires
                    0 <= glyphs as i128,
                    0 <= advance as i128,
            ;
        }
        let w = sat64((glyphs as i128) * (advance as i128));
        (w, config.font_size as i64)
    }
}

/// The width a container enters the pipeline with: its fixed size, the
/// lower limit of its policy, or zero, clamped into coordinate range.
pub open spec fn init_w(e: Element) -> int {
    match e {
        Element::Container(c) => match c.config.sizing.width {
            crate::config::SizingAxis::Fixed(w) => sat(w as int),
            crate::config::SizingAxis::Fit(mm) => sat(mm.min as int),
            crate::config::SizingAxis::Grow(mm) => sat(mm.min as int),
            crate::config::SizingAxis::Percent(_) => 0,
        },
        _ => 0,
    }
}

/// The height a container enters the pipeline with.
pub open spec fn init_h(e: Element) -> int {
    match e {
        Element::Container(c) => match c.config.sizing.height {
            crate::config::SizingAxis::Fixed(h) => sat(h as int),
            crate::config::SizingAxis::Fit(mm) => sat(mm.min as int),
            crate::config::SizingAxis::Grow(mm) => sat(mm.min as int),
            crate::config::SizingAxis::Percent(_) => 0,
        },
        _ => 0,
    }
}

/// How a freshly unpacked layout tree relates to the arena it was read
/// from, node by node: same elements, position zero, containers at their
/// starting sizes, text leaves at whatever size the measurer reported,
/// image leaves at their source size.
pub open spec fn unpacked_rel(arena: Seq<NodeModel<Element>>, idx: int, t: LayoutModel) -> bool
    decreases t,
{
    &&& 0 <= idx < arena.len()
    &&& spec_eq_element(t.element, arena[idx].val)
    &&& t.x == 0
    &&& t.y == 0
    &&& match arena[idx].val {
        Element::Container(_) => {
            &&& t.width == init_w(arena[idx].val)
            &&& t.height == init_h(arena[idx].val)
            &&& t.children.len() == arena[idx].children.len()
            &&& forall|j: int|
                0 <= j < t.children.len() ==> unpacked_rel(
                    arena,
                    arena[idx].children[j],
                    #[trigger] t.children[j],
                )
        },
        Element::Text(_) => {
            &&& t.children.len() == 0
            &&& -COORD_MAX <= t.width <= COORD_MAX
            &&& -COORD_MAX <= t.height <= COORD_MAX
        },
        Element::Image(im) => {
            &&& t.children.len() == 0
            &&& t.width == sat(im.config.src_dimensions.width as int)
            &&& t.height == sat(im.config.src_dimensions.height as int)
        },
    }
}

/// A tree read out of the arena always sits within the representable
/// coordinate range: container and image sizes are clamped as they are
/// read, and text sizes are clamped after measurement.
pub proof fn lemma_unpacked_bounded(arena: Seq<NodeModel<Element>>, idx: int, t: LayoutModel)
    requires
        unpacked_rel(arena, idx, t),
    ensures
        bounded(t),
    decreases t,
{
    match arena[idx].val {
        Element::Container(_) => {
            assert forall|j: int| 0 <= j < t.children.len() implies bounded(
                #[trigger] t.children[j],
            ) by {
                lemma_unpacked_bounded(arena, arena[idx].children[j], t.children[j]);
            }
        },
        _ => {},
    }
}

/// A tree read out of the arena has every `Fixed` size already written
/// into its node, as long as the stored configurations are in range - the
/// premise under which `Fixed` sizes survive the pipeline.
pub proof fn lemma_unpacked_fixed(arena: Seq<NodeModel<Element>>, idx: int, t: LayoutModel)
    requires
        unpacked_rel(arena, idx, t),
        configs_wf(t),
    ensures
        crate::layout::fixed_w_hold(t),
        crate::layout::fixed_h_hold(t),
    decreases t,
{
    match arena[idx].val {
        Element::Container(c) => {
            assert(crate::layout::node_config_wf(t.element));
            assert forall|j: int|
                0 <= j < t.children.len() implies crate::layout::fixed_w_hold(
                #[trigger] t.children[j],
            ) && crate::layout::fixed_h_hold(t.children[j]) by {
                assert(configs_wf(t.children[j]));
                lemma_unpacked_fixed(arena, arena[idx].children[j], t.children[j]);
            }
        },
        _ => {},
    }
}

/// Reads the subtree rooted at `idx` out of the arena into a layout tree at
/// its starting sizes, measuring text leaves along the way. The fuel bounds
/// the recursion; one unit per tree level always suffices for a tree that
/// the frame's build pass produced.
pub fn unpack_node<M: TextMeasurer>(
    arena: &ArenaElement,
    idx: usize,
    measurer: &mut M,
    fuel: usize,
) -> (r: Result<ElementLayout, RlayError>)
    requires
        arena.wf(),
    ensures
        r matches Ok(t) ==> unpacked_rel(arena@, idx as int, t@),
        r is Err ==> r == Result::<ElementLayout, RlayError>::Err(RlayError::ElementNotFound),
        forward_linked(arena@) && (idx as int) < arena@.len() && fuel as int >= arena@.len() - idx
            ==> r is Ok,
    decreases fuel,
{
    if fuel == 0 {
        proof {
            if forward_linked(arena@) && (idx as int) < arena@.len() && fuel as int >= arena@.len()
                - idx {
                assert(false);
            }
        }
        return Result::Err(RlayError::ElementNotFound);
    }
    let val = match arena.get_val(idx) {
        Option::Some(v) => v,
        Option::None => {
            return Result::Err(RlayError::ElementNotFound);
        },
    };
    let el = val.clone();
    match &el {
        Element::Container(c) => {
            let w0 = match c.config.sizing.width {
                crate::config::SizingAxis::Fixed(w) => sat64(w as i128),
                crate::config::SizingAxis::Fit(mm) => sat64(mm.min as i128),
                crate::config::SizingAxis::Grow(mm) => sat64(mm.min as i128),
                crate::config::SizingAxis::Percent(_) => 0i64,
            };
            let h0 = match c.config.sizing.height {
                crate::config::SizingAxis::Fixed(h) => sat64(h as i128),
                crate::config::SizingAxis::Fit(mm) => sat64(mm.min as i128),
                crate::config::SizingAxis::Grow(mm) => sat64(mm.min as i128),
                crate::config::SizingAxis::Percent(_) => 0i64,
            };
            let kid_idx = match arena.get_children_idx(idx) {
                Option::Some(v) => v,
                Option::None => {
                    return Result::Err(RlayError::ElementNotFound);
                },
            };
            let n = kid_idx.len();
            let mut out: Vec<ElementLayout> = Vec::new();
            let mut i: usize = 0;
            while i < n
                invariant
                    arena.wf(),
                    idx < arena@.len(),
                    n == kid_idx@.len(),
                    n == arena@[idx as int].children.len(),
                    forall|j: int|
                        0 <= j < n ==> (#[trigger] kid_idx@[j]) as int
                            == arena@[idx as int].children[j] && (kid_idx@[j] as int)
                            < arena@.len(),
                    fuel >= 1,
                    i <= n,
                    out@.len() == i,
                    forall|j: int|
                        0 <= j < i ==> unpacked_rel(
                            arena@,
                            arena@[idx as int].children[j],
                            (#[trigger] out@[j])@,
                        ),
                decreases n - i,
            {
                let child = match unpack_node(arena, kid_idx[i], measurer, fuel - 1) {
                    Result::Ok(t) => t,
                    Result::Err(e) => {
                        proof {
                            if forward_linked(arena@) && (idx as int) < arena@.len() && fuel as int
                                >= arena@.len() - idx {
                                assert(arena@[idx as int].children[i as int] > idx as int);
                                assert(false);
                            }
                        }
                        return Result::Err(e);
                    },
                };
                out.push(child);
                i += 1;
            }
            let r = ElementLayout::new(
                Point2D { x: 0, y: 0 },
                Dimension2D { width: w0, height: h0 },
                el,
                out,
            );
            proof {
                assert(spec_eq_element(r@.element, arena@[idx as int].val));
                assert(r@.width == init_w(arena@[idx as int].val));
                assert(r@.height == init_h(arena@[idx as int].val));
            }
            Result::Ok(r)
        },
        Element::Text(te) => {
            let (tw, th) = measurer.measure(&te.data, &te.config);
            let w = sat64(tw as i128);
            let h = sat64(th as i128);
            let r = ElementLayout::new(
                Point2D { x: 0, y: 0 },
                Dimension2D { width: w, height: h },
                el,
                Vec::new(),
            );
            Result::Ok(r)
        },
        Element::Image(im) => {
            let w = sat64(im.config.src_dimensions.width as i128);
            let h = sat64(im.config.src_dimensions.height as i128);
            let r = ElementLayout::new(
                Point2D { x: 0, y: 0 },
                Dimension2D { width: w, height: h },
                el,
                Vec::new(),
            );
            Result::Ok(r)
        },
    }
}

/// One id segment: the slot's index and its child count, separated by a
/// dash.
pub open spec fn spec_id_part(arena: Seq<NodeModel<Element>>, p: int) -> Seq<char> {
    spec_decimal(p as nat) + seq!['-'] + spec_decimal(
        (if 0 <= p < arena.len() {
            arena[p].children.len()
        } else {
            0
        }) as nat,
    )
}

/// The synthesized positional id at the current insertion point: one
/// segment per open container, joined by underscores. Stable across frames
/// exactly when the tree is built the same way each frame.
pub open spec fn spec_local_id(arena: Seq<NodeModel<Element>>, stack: Seq<usize>) -> Seq<char>
    decreases stack.len(),
{
    if stack.len() == 0 {
        Seq::empty()
    } else if stack.len() == 1 {
        spec_id_part(arena, stack[0] as int)
    } else {
        spec_local_id(arena, stack.drop_last()) + seq!['_'] + spec_id_part(
            arena,
            stack.last() as int,
        )
    }
}

/// The per-frame build context: the stack of open containers, the arena the
/// frame's tree grows in, and the persistent interaction store.
pub struct AppCtx {
    parent_stack: Vec<usize>,
    elements: ArenaElement,
    state: AppState,
}

impl AppCtx {
    /// The stack only names arena slots that exist, and the stores are well
    /// formed.
    pub closed spec fn wf(&self) -> bool {
        &&& self.elements.wf()
        &&& forward_linked(self.elements@)
        &&& self.state.wf()
        &&& forall|i: int|
            0 <= i < self.parent_stack@.len() ==> ((#[trigger] self.parent_stack@[i]) as int)
                < self.elements@.len()
    }

    /// The arena of this frame's elements.
    pub closed spec fn spec_elements(&self) -> Seq<NodeModel<Element>> {
        self.elements@
    }

    /// The stack of open containers.
    pub closed spec fn spec_stack(&self) -> Seq<usize> {
        self.parent_stack@
    }

    /// The interaction store.
    pub closed spec fn spec_state(&self) -> AppStateModel {
        self.state@
    }

    pub fn new() -> (r: Self)
        ensures
            r.wf(),
            r.spec_elements().len() == 0,
            r.spec_stack().len() == 0,
            !r.spec_state().init,
            r.spec_state().states == Map::<Seq<char>, crate::state::ElementStateModel>::empty(),
    {
        AppCtx { parent_stack: Vec::new(), elements: ArenaElement::new(), state: AppState::new() }
    }

    /// The positional id of the current insertion point.
    pub fn get_local_id(&self) -> (r: String)
        ensures
            r@ == spec_local_id(self.spec_elements(), self.spec_stack()),
    {
        let ghost arena = self.elements@;
        let ghost stack = self.parent_stack@;
        let mut s = String::new();
        let n = self.parent_stack.len();
        let mut i: usize = 0;
        proof {
            reveal_strlit("-");
            reveal_strlit("_");
        }
        while i < n
            invariant
                n == stack.len(),
                stack == self.parent_stack@,
                arena == self.elements@,
                i <= n,
                s@ == spec_local_id(arena, stack.take(i as int)),
            decreases n - i,
        {
            proof {
                reveal_strlit("-");
                reveal_strlit("_");
            }
            if i > 0 {
                s.append("_");
            }
            let p = self.parent_stack[i];
            let nb = match self.elements.get_nb_children(p) {
                Option::Some(c) => c,
                Option::None => 0,
            };
            let pd = usize_to_decimal(p);
            s.append(pd.as_str());
            s.append("-");
            let nd = usize_to_decimal(nb);
            s.append(nd.as_str());
            proof {
                assert(("_")@ =~= seq!['_']);
                assert(("-")@ =~= seq!['-']);
                assert(stack.take(i + 1 as int).drop_last() =~= stack.take(i as int));
                assert(stack.take(i + 1 as int).last() == stack[i as int]);
                assert(s@ =~= spec_local_id(arena, stack.take(i + 1 as int)));
            }
            i += 1;
        }
        proof {
            assert(stack.take(n as int) =~= stack);
        }
        s
    }

    /// Opens a container or leaf at the current insertion point: the
    /// element joins the arena under a fresh index as a child of the
    /// innermost open container, and itself becomes the innermost one.
    pub fn open_element(&mut self, el: Element) -> (idx: usize)
        requires
            old(self).wf(),
        ensures
            final(self).wf(),
            idx == old(self).spec_elements().len(),
            final(self).spec_elements().len() == old(self).spec_elements().len() + 1,
            final(self).spec_elements().last().val == el,
            final(self).spec_elements().last().idx == idx as int,
            final(self).spec_elements().last().children == Seq::<int>::empty(),
            final(self).spec_elements().last().parent == (if old(self).spec_stack().len() > 0 {
                Option::Some(old(self).spec_stack().last() as int)
            } else {
                Option::<int>::None
            }),
            final(self).spec_stack() == old(self).spec_stack().push(idx),
            final(self).spec_state() == old(self).spec_state(),
            old(self).spec_stack().len() > 0 ==> {
                let p = old(self).spec_stack().last() as int;
                &&& final(self).spec_elements()[p].children == old(self).spec_elements()[p].children.push(idx as int)
                &&& final(self).spec_elements()[p].val == old(self).spec_elements()[p].val
                &&& final(self).spec_elements()[p].parent == old(self).spec_elements()[p].parent
                &&& forall|i: int|
                    0 <= i < old(self).spec_elements().len() && i != p ==> final(self).spec_elements()[i] == old(self).spec_elements()[i]
            },
            old(self).spec_stack().len() == 0 ==> forall|i: int|
                0 <= i < old(self).spec_elements().len() ==> final(self).spec_elements()[i] == old(self).spec_elements()[i],
    {
        let parent_idx: Option<usize> = if self.parent_stack.len() > 0 {
            Option::Some(self.parent_stack[self.parent_stack.len() - 1])
        } else {
            Option::None
        };
        let node_idx = match self.elements.insert_node(el, parent_idx) {
            Result::Ok(i) => i,
            Result::Err(_) => {
                proof {
                    assert(false);
                }
                0
            },
        };
        self.parent_stack.push(node_idx);
        node_idx
    }

    /// Closes the innermost open container; the root stays open.
    pub fn close_element(&mut self)
        requires
            old(self).wf(),
        ensures
            final(self).wf(),
            final(self).spec_elements() == old(self).spec_elements(),
            final(self).spec_state() == old(self).spec_state(),
            old(self).spec_stack().len() <= 1 ==> final(self).spec_stack() == old(self).spec_stack(),
            old(self).spec_stack().len() > 1 ==> final(self).spec_stack() == old(self).spec_stack().drop_last(),
    {
        if self.parent_stack.len() == 1 {
            return ;
        }
        if self.parent_stack.len() == 0 {
            return ;
        }
        self.parent_stack.pop();
    }

    /// Empties the frame tree and the container stack; the interaction
    /// store persists.
    pub fn clear(&mut self)
        requires
            old(self).wf(),
        ensures
            final(self).wf(),
            final(self).spec_elements().len() == 0,
            final(self).spec_stack().len() == 0,
            final(self).spec_state() == old(self).spec_state(),
    {
        self.parent_stack.clear();
        self.elements.clear();
        proof {
            assert(forward_linked(self.elements@));
        }
    }

    /// Unpacks this frame's tree and runs the layout pipeline on it.
    /// Fails with `NoRoot` exactly when no element was opened; the only
    /// other failure is `ElementCorrupted`, exactly when a configuration in
    /// the tree lies outside the engine's numeric limits; otherwise the
    /// finished layout is owed.
    pub fn compute_layout<M: TextMeasurer>(&self, measurer: &mut M) -> (r: Result<
        ElementLayout,
        RlayError,
    >)
        requires
            self.wf(),
        ensures
            r == Result::<ElementLayout, RlayError>::Err(RlayError::NoRoot) <==> self.spec_stack().len()
                == 0,
            r matches Err(e) ==> e == RlayError::NoRoot || e == RlayError::ElementCorrupted,
            r == Result::<ElementLayout, RlayError>::Err(RlayError::ElementCorrupted)
                ==> exists|t: LayoutModel|
                #[trigger] unpacked_rel(self.spec_elements(), self.spec_stack()[0] as int, t)
                    && !configs_wf(t),
            r matches Ok(out) ==> exists|t: LayoutModel|
                {
                    &&& #[trigger] unpacked_rel(self.spec_elements(), self.spec_stack()[0] as int, t)
                    &&& configs_wf(t)
                    &&& bounded(t)
                    &&& pipeline_ok(t, out@)
                },
    {
        if self.parent_stack.len() == 0 {
            return Result::Err(RlayError::NoRoot);
        }
        let root = self.parent_stack[0];
        let fuel = self.elements.len();
        let tree = match unpack_node(&self.elements, root, measurer, fuel) {
            Result::Ok(t) => t,
            Result::Err(e) => {
                proof {
                    assert(false);
                }
                return Result::Err(e);
            },
        };
        if !check_tree(&tree) {
            proof {
                lemma_unpacked_bounded(self.elements@, root as int, tree@);
                assert(!configs_wf(tree@));
                assert(unpacked_rel(self.spec_elements(), self.spec_stack()[0] as int, tree@));
            }
            return Result::Err(RlayError::ElementCorrupted);
        }
        let ghost tm = tree@;
        let out = match calculate_layout(tree) {
            Result::Ok(o) => o,
            Result::Err(e) => {
                proof {
                    assert(false);
                }
                return Result::Err(e);
            },
        };
        proof {
            assert(unpacked_rel(self.spec_elements(), self.spec_stack()[0] as int, tm));
            assert(configs_wf(tm) && bounded(tm));
        }
        Result::Ok(out)
    }

    /// Runs the interaction pass against a finished layout.
    pub fn update_hovered_elements(&mut self, element: &ElementLayout)
        requires
            old(self).wf(),
        ensures
            final(self).wf(),
            final(self).spec_elements() == old(self).spec_elements(),
            final(self).spec_stack() == old(self).spec_stack(),
            update_post(old(self).spec_state(), final(self).spec_state(), element@),
    {
        self.state.update_hovered_elements(element);
    }

    pub fn get_input_state(&self) -> (r: &InputState)
        ensures
            r.mouse == self.spec_state().mouse,
    {
        self.state.input_state()
    }

    pub fn set_input_state(&mut self, input_state: InputState)
        requires
            old(self).wf(),
        ensures
            final(self).wf(),
            final(self).spec_elements() == old(self).spec_elements(),
            final(self).spec_stack() == old(self).spec_stack(),
            final(self).spec_state() == (AppStateModel {
                mouse: input_state.mouse,
                keys: input_state.keyboard.keys_pressed@,
                init: old(self).spec_state().init || !(input_state.mouse.mouse_position == (
                Point2D { x: 0i64, y: 0i64 })),
                ..old(self).spec_state()
            }),
    {
        self.state.set_input_state(input_state);
    }

    pub fn is_hovered(&self, element_id: &str) -> (r: bool)
        ensures
            r == self.spec_state().hovered.contains(element_id@),
    {
        self.state.is_hovered(element_id)
    }

    pub fn is_focused(&self, element_id: &str) -> (r: bool)
        ensures
            r == (self.spec_state().focused matches Some(f) && f == element_id@),
    {
        self.state.is_focused(element_id)
    }

    pub fn set_focused(&mut self, element_id: Option<String>)
        requires
            old(self).wf(),
        ensures
            final(self).wf(),
            final(self).spec_elements() == old(self).spec_elements(),
            final(self).spec_stack() == old(self).spec_stack(),
            final(self).spec_state() == (AppStateModel {
                focused: match element_id {
                    Option::Some(s) => Option::Some(s@),
                    Option::None => Option::None,
                },
                ..old(self).spec_state()
            }),
    {
        self.state.set_focused(element_id)
    }

    pub fn is_active(&self, element_id: &str) -> (r: bool)
        ensures
            r == self.spec_state().active.contains(element_id@),
    {
        self.state.is_active(element_id)
    }

    pub fn is_clicked(&self, element_id: &str) -> (r: bool)
        requires
            self.wf(),
        ensures
            r == crate::state::st_clicked(self.spec_state().states, element_id@),
    {
        self.state.is_clicked(element_id)
    }

    pub fn is_pressed(&self, element_id: &str) -> (r: bool)
        requires
            self.wf(),
        ensures
            r == crate::state::st_pressed(self.spec_state().states, element_id@),
    {
        self.state.is_pressed(element_id)
    }

    pub fn set_flag(&mut self, element_id: &str, flag: String, value: bool) -> (r: bool)
        requires
            old(self).wf(),
        ensures
            final(self).wf(),
            final(self).spec_state().states == old(self).spec_state().states.insert(
                element_id@,
                crate::state::ElementStateModel {
                    flags: (if old(self).spec_state().states.contains_key(element_id@) {
                        old(self).spec_state().states[element_id@]
                    } else {
                        crate::state::empty_state_model(element_id@)
                    }).flags.insert(flag@, value),
                    ..(if old(self).spec_state().states.contains_key(element_id@) {
                        old(self).spec_state().states[element_id@]
                    } else {
                        crate::state::empty_state_model(element_id@)
                    })
                },
            ),
    {
        self.state.set_flag(element_id, flag, value)
    }

    pub fn get_flag(&self, element_id: &str, flag: &str) -> (r: bool)
        requires
            self.wf(),
        ensures
            r == (self.spec_state().states.contains_key(element_id@)
                && self.spec_state().states[element_id@].flags.contains_key(flag@)
                && self.spec_state().states[element_id@].flags[flag@]),
    {
        self.state.get_flag(element_id, flag)
    }

    pub fn set_attr(&mut self, element_id: &str, attr: String, value: String) -> (r: Option<String>)
        requires
            old(self).wf(),
        ensures
            final(self).wf(),
            final(self).spec_state().states == old(self).spec_state().states.insert(
                element_id@,
                crate::state::ElementStateModel {
                    attrs: (if old(self).spec_state().states.contains_key(element_id@) {
                        old(self).spec_state().states[element_id@]
                    } else {
                        crate::state::empty_state_model(element_id@)
                    }).attrs.insert(attr@, value@),
                    ..(if old(self).spec_state().states.contains_key(element_id@) {
                        old(self).spec_state().states[element_id@]
                    } else {
                        crate::state::empty_state_model(element_id@)
                    })
                },
            ),
    {
        self.state.set_attr(element_id, attr, value)
    }

    pub fn get_attr(&self, element_id: &str, attr: &str) -> (r: Option<&String>)
        requires
            self.wf(),
        ensures
            r is Some <==> (self.spec_state().states.contains_key(element_id@)
                && self.spec_state().states[element_id@].attrs.contains_key(attr@)),
            r matches Some(v) ==> v@ == self.spec_state().states[element_id@].attrs[attr@],
    {
        self.state.get_attr(element_id, attr)
    }

    pub fn state(&self) -> (r: &AppState)
        requires
            self.wf(),
        ensures
            r@ == self.spec_state(),
            r.wf(),
    {
        &self.state
    }

    pub fn get_element_state(&self, element_id: &str) -> (r: Option<&ElementState>)
        requires
            self.wf(),
        ensures
            r is Some <==> self.spec_state().states.contains_key(element_id@),
            r matches Some(st) ==> st@ == self.spec_state().states[element_id@],
    {
        self.state.get_element_state(element_id)
    }

    /// The first element of the frame's tree whose identifier reads `id`.
    pub fn get_element_with_id(&self, id: &str) -> (r: Result<&Element, RlayError>)
        ensures
            r is Ok <==> exists|i: int|
                0 <= i < self.spec_elements().len() && (
                #[trigger] self.spec_elements()[i]).val.spec_id_view() == Option::Some(id@),
            r matches Ok(el) ==> el.spec_id_view() == Option::Some(id@),
    {
        match self.elements.get_element_with_id(id) {
            Option::Some(el) => {
                proof {
                    let i = choose|i: int|
                        {
                            &&& 0 <= i < self.elements@.len()
                            &&& *el == (#[trigger] self.elements@[i]).val
                            &&& self.elements@[i].val.spec_id_view() == Option::Some(id@)
                            &&& forall|j: int|
                                0 <= j < i ==> (#[trigger] self.elements@[j]).val.spec_id_view()
                                    != Option::Some(id@)
                        };
                    assert(0 <= i < self.spec_elements().len() && self.spec_elements()[i].val.spec_id_view()
                        == Option::Some(id@));
                }
                Result::Ok(el)
            },
            Option::None => Result::Err(RlayError::ElementNotFound),
        }
    }

    /// The root element of the frame's tree, if one was opened.
    pub fn current_element(&self) -> (r: Result<&Element, RlayError>)
        requires
            self.wf(),
        ensures
            r is Ok <==> self.spec_stack().len() > 0,
            r matches Ok(el) ==> *el == self.spec_elements()[self.spec_stack()[0] as int].val,
    {
        if self.parent_stack.len() == 0 {
            return Result::Err(RlayError::ElementNotFound);
        }
        let idx = self.parent_stack[0];
        match self.elements.get_val(idx) {
            Option::Some(v) => Result::Ok(v),
            Option::None => {
                proof {
                    assert(false);
                }
                Result::Err(RlayError::ElementNotFound)
            },
        }
    }

    /// The frame's element arena.
    pub fn elements(&self) -> (r: &ArenaElement)
        ensures
            r@ == self.spec_elements(),
    {
        &self.elements
    }
}

} // verus!
