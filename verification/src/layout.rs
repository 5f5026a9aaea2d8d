use vstd::prelude::*;

use crate::config::spec_clamp;
use crate::config::PERCENT_SCALE;
use crate::config::LayoutDirection;
use crate::config::SizingAxis;
use crate::element::Element;
use crate::err::RlayError;
use crate::geometry::sat;
use crate::geometry::sat64;
use crate::geometry::Dimension2D;
use crate::geometry::Point2D;
use crate::geometry::COORD_MAX;
use crate::strutil::ids_unique;
use crate::strutil::insert_id;
use crate::strutil::set_of;
use crate::geometry::DIM_MAX;

verus! {

/// A node of the layout tree: the element it was built from, the position
/// and size resolved so far, and the laid-out children.
pub struct ElementLayout {
    position: Point2D,
    dimensions: Dimension2D,
    element: Element,
    children: Vec<ElementLayout>,
}

/// The abstract content of a layout node, over mathematical integers.
#[verifier::ext_equal]
pub struct LayoutModel {
    pub x: int,
    pub y: int,
    pub width: int,
    pub height: int,
    pub element: Element,
    pub children: Seq<LayoutModel>,
}

/// The abstract content of a layout node.
pub closed spec fn layout_model(t: ElementLayout) -> LayoutModel
    decreases t,
{
    LayoutModel {
        x: t.position.x as int,
        y: t.position.y as int,
        width: t.dimensions.width as int,
        height: t.dimensions.height as int,
        element: t.element,
        children: Seq::new(
            t.children@.len(),
            |i: int|
                if 0 <= i < t.children@.len() {
                    layout_model(t.children@[i])
                } else {
                    arbitrary()
                },
        ),
    }
}

impl View for ElementLayout {
    type V = LayoutModel;

    closed spec fn view(&self) -> LayoutModel {
        layout_model(*self)
    }
}

impl ElementLayout {
    pub fn new(
        position: Point2D,
        dimensions: Dimension2D,
        config: Element,
        children: Vec<ElementLayout>,
    ) -> (r: Self)
        ensures
            r@.x == position.x as int,
            r@.y == position.y as int,
            r@.width == dimensions.width as int,
            r@.height == dimensions.height as int,
            r@.element == config,
            r@.children.len() == children@.len(),
            forall|i: int| 0 <= i < children@.len() ==> r@.children[i] == children@[i]@,
    {
        let ghost cs = children@;
        let r = ElementLayout { position, dimensions, element: config, children };
        proof {
            assert forall|i: int| 0 <= i < cs.len() implies r@.children[i] == cs[i]@ by {
                assert(r@.children[i] == r.children@[i]@);
            }
        }
        r
    }

    pub fn position(&self) -> (r: Point2D)
        ensures
            r.x as int == self@.x,
            r.y as int == self@.y,
    {
        self.position
    }

    pub fn dimensions(&self) -> (r: Dimension2D)
        ensures
            r.width as int == self@.width,
            r.height as int == self@.height,
    {
        self.dimensions
    }

    pub fn data(&self) -> (r: &Element)
        ensures
            *r == self@.element,
    {
        &self.element
    }

    pub fn children(&self) -> (r: &Vec<ElementLayout>)
        ensures
            r@.len() == self@.children.len(),
            forall|i: int| 0 <= i < r@.len() ==> (#[trigger] r@[i])@ == self@.children[i],
    {
        proof {
            assert forall|i: int| 0 <= i < self.children@.len() implies (self.children@[i])@
                == self@.children[i] by {
                assert(self@.children[i] == self.children@[i]@);
            }
        }
        &self.children
    }
}

/// The style record of a node, for a container; leaves have no record of
/// their own and never direct the layout of children.
pub open spec fn node_config_wf(e: Element) -> bool {
    match e {
        Element::Container(c) => c.config.wf(),
        _ => true,
    }
}

/// Every container in the tree carries a well-formed configuration.
pub open spec fn configs_wf(m: LayoutModel) -> bool
    decreases m,
{
    &&& node_config_wf(m.element)
    &&& forall|i: int| 0 <= i < m.children.len() ==> configs_wf(#[trigger] m.children[i])
}

/// Every coordinate stored in the tree lies within the representable range;
/// the stages keep this bound as they rewrite sizes and positions.
pub open spec fn bounded(m: LayoutModel) -> bool
    decreases m,
{
    &&& -COORD_MAX <= m.x <= COORD_MAX
    &&& -COORD_MAX <= m.y <= COORD_MAX
    &&& -COORD_MAX <= m.width <= COORD_MAX
    &&& -COORD_MAX <= m.height <= COORD_MAX
    &&& forall|i: int| 0 <= i < m.children.len() ==> bounded(#[trigger] m.children[i])
}

/// Sum of the widths of a row of nodes.
pub open spec fn sum_w(s: Seq<LayoutModel>) -> int
    decreases s.len(),
{
    if s.len() == 0 {
        0
    } else {
        sum_w(s.drop_last()) + s.last().width
    }
}

/// Largest width in a row of nodes, zero for an empty row.
pub open spec fn max_w(s: Seq<LayoutModel>) -> int
    decreases s.len(),
{
    if s.len() == 0 {
        0
    } else if s.len() == 1 {
        s.last().width
    } else if max_w(s.drop_last()) >= s.last().width {
        max_w(s.drop_last())
    } else {
        s.last().width
    }
}

/// Sum of the heights of a row of nodes.
pub open spec fn sum_h(s: Seq<LayoutModel>) -> int
    decreases s.len(),
{
    if s.len() == 0 {
        0
    } else {
        sum_h(s.drop_last()) + s.last().height
    }
}

/// Largest height in a row of nodes, zero for an empty row.
pub open spec fn max_h(s: Seq<LayoutModel>) -> int
    decreases s.len(),
{
    if s.len() == 0 {
        0
    } else if s.len() == 1 {
        s.last().height
    } else if max_h(s.drop_last()) >= s.last().height {
        max_h(s.drop_last())
    } else {
        s.last().height
    }
}

/// Total gap space between `n` siblings: one gap between each pair of
/// neighbours, none before the first or after the last.
pub open spec fn gap_sum(n: int, gap: int) -> int {
    if n <= 1 {
        0
    } else {
        (n - 1) * gap
    }
}

/// The content width of a container: along a row, the widths of the children
/// plus the gaps between them; along a column, the widest child.
pub open spec fn content_w(dir: LayoutDirection, kids: Seq<LayoutModel>, gap: int) -> int {
    if dir is LeftToRight {
        sum_w(kids) + gap_sum(kids.len() as int, gap)
    } else {
        max_w(kids)
    }
}

/// The content height of a container: along a column, the heights of the
/// children plus the gaps; along a row, the tallest child.
pub open spec fn content_h(dir: LayoutDirection, kids: Seq<LayoutModel>, gap: int) -> int {
    if dir is TopToBottom {
        sum_h(kids) + gap_sum(kids.len() as int, gap)
    } else {
        max_h(kids)
    }
}

/// First sizing stage: bottom-up, a container whose width policy is `Fit`
/// becomes exactly the width of its content plus its horizontal padding,
/// clamped to the policy's limits - whatever width it entered with is
/// overwritten; every other node keeps its width.
pub open spec fn spec_fit_width(m: LayoutModel) -> LayoutModel
    decreases m,
{
    let kids = Seq::new(
        m.children.len(),
        |i: int|
            if 0 <= i < m.children.len() {
                spec_fit_width(m.children[i])
            } else {
                arbitrary()
            },
    );
    match m.element {
        Element::Container(c) => {
            let cfg = c.config;
            match cfg.sizing.width {
                SizingAxis::Fit(mm) => {
                    let content = content_w(cfg.layout_direction, kids, cfg.child_gap as int);
                    let padded = content + cfg.padding.left + cfg.padding.right;
                    LayoutModel {
                        x: m.x,
                        y: m.y,
                        width: spec_clamp(padded, mm.min as int, mm.max as int),
                        height: m.height,
                        element: m.element,
                        children: kids,
                    }
                },
                _ => LayoutModel {
                    x: m.x,
                    y: m.y,
                    width: m.width,
                    height: m.height,
                    element: m.element,
                    children: kids,
                },
            }
        },
        _ => LayoutModel {
            x: m.x,
            y: m.y,
            width: m.width,
            height: m.height,
            element: m.element,
            children: kids,
        },
    }
}

/// A row of nodes with widths in range sums to a width bounded by the row's
/// length times the largest magnitude.
proof fn lemma_sum_w_bound(s: Seq<LayoutModel>)
    requires
        forall|i: int| 0 <= i < s.len() ==> -COORD_MAX <= (#[trigger] s[i]).width <= COORD_MAX,
    ensures
        -((s.len() as int) * (COORD_MAX as int)) <= sum_w(s) <= (s.len() as int) * (
        COORD_MAX as int),
    decreases s.len(),
{
    if s.len() == 0 {
    } else {
        assert forall|i: int| 0 <= i < s.drop_last().len() implies -COORD_MAX <= (#[trigger] s.drop_last()[i]).width <= COORD_MAX by {
            assert(s.drop_last()[i] == s[i]);
        }
        lemma_sum_w_bound(s.drop_last());
        assert((s.len() as int) * (COORD_MAX as int) == (s.len() - 1) * (COORD_MAX as int) + (
        COORD_MAX as int)) by (nonlinear_arith);
    }
}

/// The same bound for heights.
proof fn lemma_sum_h_bound(s: Seq<LayoutModel>)
    requires
        forall|i: int| 0 <= i < s.len() ==> -COORD_MAX <= (#[trigger] s[i]).height <= COORD_MAX,
    ensures
        -((s.len() as int) * (COORD_MAX as int)) <= sum_h(s) <= (s.len() as int) * (
        COORD_MAX as int),
    decreases s.len(),
{
    if s.len() == 0 {
    } else {
        assert forall|i: int| 0 <= i < s.drop_last().len() implies -COORD_MAX <= (#[trigger] s.drop_last()[i]).height <= COORD_MAX by {
            assert(s.drop_last()[i] == s[i]);
        }
        lemma_sum_h_bound(s.drop_last());
        assert((s.len() as int) * (COORD_MAX as int) == (s.len() - 1) * (COORD_MAX as int) + (
        COORD_MAX as int)) by (nonlinear_arith);
    }
}

/// A count of at most `2^64` rows, each contributing at most `COORD_MAX`,
/// stays far below the `i128` range.
proof fn lemma_scaled_bound(k: int)
    requires
        0 <= k <= 0x1_0000_0000_0000_0000,
    ensures
        k * (COORD_MAX as int) <= 0x2000_0000_0000_0000_0000_0000_0000_0000,
{
    assert(k * (COORD_MAX as int) <= 0x2000_0000_0000_0000_0000_0000_0000_0000)
        by (nonlinear_arith)
        requires
            0 <= k <= 0x1_0000_0000_0000_0000,
            COORD_MAX == 0x1000_0000_0000_0000i64,
    ;
}

/// Runs the `Fit` width pass over the whole tree, children before parents.
#[verifier::rlimit(40)]
pub fn fit_width(node: ElementLayout) -> (r: ElementLayout)
    requires
        configs_wf(node@),
        bounded(node@),
    ensures
        r@ == spec_fit_width(node@),
        configs_wf(r@),
        bounded(r@),
    decreases node,
{
    let ghost m = node@;
    let ElementLayout { position, dimensions, element, children } = node;
    let ghost orig = children@;
    proof {
        assert(children == node.children);
        assert(orig == node.children@);
        assert(m.children.len() == orig.len());
        assert forall|j: int| 0 <= j < orig.len() implies m.children[j] == orig[j]@ by {}
    }
    let mut kids = children;
    let mut new_children: Vec<ElementLayout> = Vec::new();
    while kids.len() > 0
        invariant
            configs_wf(m),
            bounded(m),
            orig == node.children@,
            m.children.len() == orig.len(),
            forall|j: int| 0 <= j < orig.len() ==> m.children[j] == orig[j]@,
            new_children@.len() + kids@.len() == orig.len(),
            kids@ =~= orig.skip(new_children@.len() as int),
            forall|j: int|
                0 <= j < new_children@.len() ==> (#[trigger] new_children@[j])@ == spec_fit_width(
                    m.children[j],
                ),
            forall|j: int|
                0 <= j < new_children@.len() ==> bounded(
                    #[trigger] spec_fit_width(m.children[j]),
                ) && configs_wf(spec_fit_width(m.children[j])),
        decreases kids@.len(),
    {
        let ghost k = new_children@.len() as int;
        let c = kids.remove(0);
        proof {
            assert(c == orig[k]);
            assert(c@ == m.children[k]);
            assert(configs_wf(m.children[k]));
            assert(bounded(m.children[k]));
            assert(c == node.children@[k]);
            vstd::std_specs::vec::axiom_vec_index_decreases::<ElementLayout>(node.children, k);
            assert(decreases_to!(node => node.children));
            assert(decreases_to!(node => c));
        }
        let fc = fit_width(c);
        new_children.push(fc);
        proof {
            assert(kids@ =~= orig.skip(new_children@.len() as int));
        }
    }
    let n = new_children.len();
    let ghost ks = Seq::new(
        m.children.len(),
        |i: int|
            if 0 <= i < m.children.len() {
                spec_fit_width(m.children[i])
            } else {
                arbitrary()
            },
    );
    proof {
        assert forall|j: int| 0 <= j < n implies (#[trigger] new_children@[j])@ == ks[j] by {}
    }
    let mut sum: i128 = 0;
    let mut mx: i64 = 0;
    let mut j: usize = 0;
    while j < n
        invariant
            n == new_children@.len(),
            n == ks.len(),
            forall|i: int| 0 <= i < n ==> (#[trigger] new_children@[i])@ == ks[i],
            forall|i: int| 0 <= i < n ==> bounded(#[trigger] ks[i]),
            j <= n,
            sum == sum_w(ks.take(j as int)),
            mx as int == max_w(ks.take(j as int)),
        decreases n - j,
    {
        let w = new_children[j].dimensions.width;
        proof {
            assert(new_children@[j as int]@ == ks[j as int]);
            assert(w as int == ks[j as int].width);
            assert(-COORD_MAX <= ks[j as int].width <= COORD_MAX);
            assert forall|i: int| 0 <= i < j implies -COORD_MAX <= (#[trigger] ks.take(
                j as int,
            )[i]).width <= COORD_MAX by {
                assert(ks.take(j as int)[i] == ks[i]);
                assert(bounded(ks[i]));
            }
            lemma_sum_w_bound(ks.take(j as int));
            lemma_scaled_bound(j as int);
            assert(ks.take(j + 1 as int).drop_last() =~= ks.take(j as int));
            assert(ks.take(j + 1 as int).last() == ks[j as int]);
        }
        sum = sum + w as i128;
        if j == 0 || w > mx {
            mx = w;
        }
        j += 1;
    }
    proof {
        assert(ks.take(n as int) =~= ks);
        assert forall|i: int| 0 <= i < ks.len() implies -COORD_MAX <= (#[trigger] ks[i]).width
            <= COORD_MAX by {
            assert(bounded(ks[i]));
        }
        lemma_sum_w_bound(ks);
        lemma_scaled_bound(n as int);
    }
    let dims = dimensions;
    let r = match &element {
        Element::Container(c) => {
            let cfg = c.config;
            match cfg.sizing.width {
                SizingAxis::Fit(mm) => {
                    let gap_total: i128 = if n <= 1 {
                        0i128
                    } else {
                        proof {
                            assert(-(0x2000_0000_0000_0000_0000_0000_0000_0000i128) <= ((n
                                - 1) as i128) * (cfg.child_gap as i128)
                                <= 0x2000_0000_0000_0000_0000_0000_0000_0000i128)
                                by (nonlinear_arith)
                                requires
                                    2 <= n as i128 <= 0x1_0000_0000_0000_0000i128,
                                    -(COORD_MAX as i128) <= cfg.child_gap as i128 <= (
                                    COORD_MAX as i128),
                                    COORD_MAX == 0x1000_0000_0000_0000i64,
                            ;
                        }
                        ((n - 1) as i128) * (cfg.child_gap as i128)
                    };
                    proof {
                        assert((n as i128) * (COORD_MAX as i128)
                            <= 0x2000_0000_0000_0000_0000_0000_0000_0000i128) by (nonlinear_arith)
                            requires
                                0 <= n as i128 <= 0x1_0000_0000_0000_0000i128,
                                COORD_MAX == 0x1000_0000_0000_0000i64,
                        ;
                    }
                    let content: i128 = match cfg.layout_direction {
                        LayoutDirection::LeftToRight => sum + gap_total,
                        LayoutDirection::TopToBottom => mx as i128,
                    };
                    proof {
                        assert(content == content_w(cfg.layout_direction, ks, cfg.child_gap as int));
                    }
                    let padded: i128 = content + (cfg.padding.left as i128) + (
                    cfg.padding.right as i128);
                    let new_w: i64 = if padded < mm.min as i128 {
                        mm.min
                    } else if padded > mm.max as i128 {
                        mm.max
                    } else {
                        padded as i64
                    };
                    ElementLayout {
                        position,
                        dimensions: Dimension2D { width: new_w, height: dims.height },
                        element,
                        children: new_children,
                    }
                },
                _ => ElementLayout { position, dimensions: dims, element, children: new_children },
            }
        },
        _ => ElementLayout { position, dimensions: dims, element, children: new_children },
    };
    proof {
        assert(r@.children =~= ks);
        assert(ks =~= spec_fit_width(m).children);
        assert(r@ =~= spec_fit_width(m));
        assert forall|i: int| 0 <= i < r@.children.len() implies bounded(
            #[trigger] r@.children[i],
        ) && configs_wf(r@.children[i]) by {}
        assert(bounded(r@));
        assert(configs_wf(r@));
    }
    r
}

/// Third sizing stage: bottom-up, a container whose height policy is `Fit`
/// becomes exactly the height of its content plus its vertical padding,
/// clamped to the policy's limits - whatever height it entered with is
/// overwritten; every other node keeps its height.
pub open spec fn spec_fit_height(m: LayoutModel) -> LayoutModel
    decreases m,
{
    let kids = Seq::new(
        m.children.len(),
        |i: int|
            if 0 <= i < m.children.len() {
                spec_fit_height(m.children[i])
            } else {
                arbitrary()
            },
    );
    match m.element {
        Element::Container(c) => {
            let cfg = c.config;
            match cfg.sizing.height {
                SizingAxis::Fit(mm) => {
                    let content = content_h(cfg.layout_direction, kids, cfg.child_gap as int);
                    let padded = content + cfg.padding.top + cfg.padding.bottom;
                    LayoutModel {
                        x: m.x,
                        y: m.y,
                        width: m.width,
                        height: spec_clamp(padded, mm.min as int, mm.max as int),
                        element: m.element,
                        children: kids,
                    }
                },
                _ => LayoutModel {
                    x: m.x,
                    y: m.y,
                    width: m.width,
                    height: m.height,
                    element: m.element,
                    children: kids,
                },
            }
        },
        _ => LayoutModel {
            x: m.x,
            y: m.y,
            width: m.width,
            height: m.height,
            element: m.element,
            children: kids,
        },
    }
}

/// Runs the `Fit` height pass over the whole tree, children before parents.
#[verifier::rlimit(40)]
pub fn fit_height(node: ElementLayout) -> (r: ElementLayout)
    requires
        configs_wf(node@),
        bounded(node@),
    ensures
        r@ == spec_fit_height(node@),
        configs_wf(r@),
        bounded(r@),
    decreases node,
{
    let ghost m = node@;
    let ElementLayout { position, dimensions, element, children } = node;
    let ghost orig = children@;
    proof {
        assert(children == node.children);
        assert(orig == node.children@);
        assert(m.children.len() == orig.len());
        assert forall|j: int| 0 <= j < orig.len() implies m.children[j] == orig[j]@ by {}
    }
    let mut kids = children;
    let mut new_children: Vec<ElementLayout> = Vec::new();
    while kids.len() > 0
        invariant
            configs_wf(m),
            bounded(m),
            orig == node.children@,
            m.children.len() == orig.len(),
            forall|j: int| 0 <= j < orig.len() ==> m.children[j] == orig[j]@,
            new_children@.len() + kids@.len() == orig.len(),
            kids@ =~= orig.skip(new_children@.len() as int),
            forall|j: int|
                0 <= j < new_children@.len() ==> (#[trigger] new_children@[j])@ == spec_fit_height(
                    m.children[j],
                ),
            forall|j: int|
                0 <= j < new_children@.len() ==> bounded(
                    #[trigger] spec_fit_height(m.children[j]),
                ) && configs_wf(spec_fit_height(m.children[j])),
        decreases kids@.len(),
    {
        let ghost k = new_children@.len() as int;
        let c = kids.remove(0);
        proof {
            assert(c == orig[k]);
            assert(c@ == m.children[k]);
            assert(configs_wf(m.children[k]));
            assert(bounded(m.children[k]));
            assert(c == node.children@[k]);
            vstd::std_specs::vec::axiom_vec_index_decreases::<ElementLayout>(node.children, k);
            assert(decreases_to!(node => node.children));
            assert(decreases_to!(node => c));
        }
        let fc = fit_height(c);
        new_children.push(fc);
        proof {
            assert(kids@ =~= orig.skip(new_children@.len() as int));
        }
    }
    let n = new_children.len();
    let ghost ks = Seq::new(
        m.children.len(),
        |i: int|
            if 0 <= i < m.children.len() {
                spec_fit_height(m.children[i])
            } else {
                arbitrary()
            },
    );
    proof {
        assert forall|j: int| 0 <= j < n implies (#[trigger] new_children@[j])@ == ks[j] by {}
    }
    let mut sum: i128 = 0;
    let mut mx: i64 = 0;
    let mut j: usize = 0;
    while j < n
        invariant
            n == new_children@.len(),
            n == ks.len(),
            forall|i: int| 0 <= i < n ==> (#[trigger] new_children@[i])@ == ks[i],
            forall|i: int| 0 <= i < n ==> bounded(#[trigger] ks[i]),
            j <= n,
            sum == sum_h(ks.take(j as int)),
            mx as int == max_h(ks.take(j as int)),
        decreases n - j,
    {
        let w = new_children[j].dimensions.height;
        proof {
            assert(new_children@[j as int]@ == ks[j as int]);
            assert(w as int == ks[j as int].height);
            assert(-COORD_MAX <= ks[j as int].height <= COORD_MAX);
            assert forall|i: int| 0 <= i < j implies -COORD_MAX <= (#[trigger] ks.take(
                j as int,
            )[i]).width <= COORD_MAX by {
                assert(ks.take(j as int)[i] == ks[i]);
                assert(bounded(ks[i]));
            }
            lemma_sum_h_bound(ks.take(j as int));
            lemma_scaled_bound(j as int);
            assert(ks.take(j + 1 as int).drop_last() =~= ks.take(j as int));
            assert(ks.take(j + 1 as int).last() == ks[j as int]);
        }
        sum = sum + w as i128;
        if j == 0 || w > mx {
            mx = w;
        }
        j += 1;
    }
    proof {
        assert(ks.take(n as int) =~= ks);
        assert forall|i: int| 0 <= i < ks.len() implies -COORD_MAX <= (#[trigger] ks[i]).height
            <= COORD_MAX by {
            assert(bounded(ks[i]));
        }
        lemma_sum_h_bound(ks);
        lemma_scaled_bound(n as int);
    }
    let dims = dimensions;
    let r = match &element {
        Element::Container(c) => {
            let cfg = c.config;
            match cfg.sizing.height {
                SizingAxis::Fit(mm) => {
                    let gap_total: i128 = if n <= 1 {
                        0i128
                    } else {
                        proof {
                            assert(-(0x2000_0000_0000_0000_0000_0000_0000_0000i128) <= ((n
                                - 1) as i128) * (cfg.child_gap as i128)
                                <= 0x2000_0000_0000_0000_0000_0000_0000_0000i128)
                                by (nonlinear_arith)
                                requires
                                    2 <= n as i128 <= 0x1_0000_0000_0000_0000i128,
                                    -(COORD_MAX as i128) <= cfg.child_gap as i128 <= (
                                    COORD_MAX as i128),
                                    COORD_MAX == 0x1000_0000_0000_0000i64,
                            ;
                        }
                        ((n - 1) as i128) * (cfg.child_gap as i128)
                    };
                    proof {
                        assert((n as i128) * (COORD_MAX as i128)
                            <= 0x2000_0000_0000_0000_0000_0000_0000_0000i128) by (nonlinear_arith)
                            requires
                                0 <= n as i128 <= 0x1_0000_0000_0000_0000i128,
                                COORD_MAX == 0x1000_0000_0000_0000i64,
                        ;
                    }
                    let content: i128 = match cfg.layout_direction {
                        LayoutDirection::TopToBottom => sum + gap_total,
                        LayoutDirection::LeftToRight => mx as i128,
                    };
                    proof {
                        assert(content == content_h(cfg.layout_direction, ks, cfg.child_gap as int));
                    }
                    let padded: i128 = content + (cfg.padding.top as i128) + (
                    cfg.padding.bottom as i128);
                    let new_h: i64 = if padded < mm.min as i128 {
                        mm.min
                    } else if padded > mm.max as i128 {
                        mm.max
                    } else {
                        padded as i64
                    };
                    ElementLayout {
                        position,
                        dimensions: Dimension2D { width: dims.width, height: new_h },
                        element,
                        children: new_children,
                    }
                },
                _ => ElementLayout { position, dimensions: dims, element, children: new_children },
            }
        },
        _ => ElementLayout { position, dimensions: dims, element, children: new_children },
    };
    proof {
        assert(r@.children =~= ks);
        assert(ks =~= spec_fit_height(m).children);
        assert(r@ =~= spec_fit_height(m));
        assert forall|i: int| 0 <= i < r@.children.len() implies bounded(
            #[trigger] r@.children[i],
        ) && configs_wf(r@.children[i]) by {}
        assert(bounded(r@));
        assert(configs_wf(r@));
    }
    r
}

/// The smaller of two integers.
pub open spec fn min2(a: int, b: int) -> int {
    if a <= b {
        a
    } else {
        b
    }
}

/// The larger of two integers.
pub open spec fn max2(a: int, b: int) -> int {
    if a >= b {
        a
    } else {
        b
    }
}

/// Sum of a row of stored widths.
pub open spec fn sum_i64s(s: Seq<i64>) -> int
    decreases s.len(),
{
    if s.len() == 0 {
        0
    } else {
        sum_i64s(s.drop_last()) + s.last()
    }
}

/// How many flags in a row are set.
pub open spec fn count_true(s: Seq<bool>) -> int
    decreases s.len(),
{
    if s.len() == 0 {
        0
    } else {
        count_true(s.drop_last()) + if s.last() {
            1int
        } else {
            0int
        }
    }
}

proof fn lemma_sum_i64s_update(s: Seq<i64>, i: int, v: i64)
    requires
        0 <= i < s.len(),
    ensures
        sum_i64s(s.update(i, v)) == sum_i64s(s) - s[i] + v,
    decreases s.len(),
{
    if s.len() == 0 {
    } else if i == s.len() - 1 {
        assert(s.update(i, v).drop_last() =~= s.drop_last());
        assert(s.update(i, v).last() == v);
    } else {
        assert(s.update(i, v).drop_last() =~= s.drop_last().update(i, v));
        assert(s.update(i, v).last() == s.last());
        lemma_sum_i64s_update(s.drop_last(), i, v);
    }
}

proof fn lemma_count_true_update_false(s: Seq<bool>, i: int)
    requires
        0 <= i < s.len(),
        s[i],
    ensures
        count_true(s.update(i, false)) == count_true(s) - 1,
    decreases s.len(),
{
    if s.len() == 0 {
    } else if i == s.len() - 1 {
        assert(s.update(i, false).drop_last() =~= s.drop_last());
    } else {
        assert(s.update(i, false).drop_last() =~= s.drop_last().update(i, false));
        assert(s.update(i, false).last() == s.last());
        lemma_count_true_update_false(s.drop_last(), i);
    }
}

proof fn lemma_count_true_nonneg(s: Seq<bool>)
    ensures
        count_true(s) >= 0,
    decreases s.len(),
{
    if s.len() > 0 {
        lemma_count_true_nonneg(s.drop_last());
    }
}

proof fn lemma_sum_i64s_bound(s: Seq<i64>)
    requires
        forall|i: int| 0 <= i < s.len() ==> -COORD_MAX <= #[trigger] s[i] <= COORD_MAX,
    ensures
        -((s.len() as int) * (COORD_MAX as int)) <= sum_i64s(s) <= (s.len() as int) * (
        COORD_MAX as int),
    decreases s.len(),
{
    if s.len() == 0 {
    } else {
        assert forall|i: int| 0 <= i < s.drop_last().len() implies -COORD_MAX
            <= #[trigger] s.drop_last()[i] <= COORD_MAX by {
            assert(s.drop_last()[i] == s[i]);
        }
        lemma_sum_i64s_bound(s.drop_last());
        assert((s.len() as int) * (COORD_MAX as int) == (s.len() - 1) * (COORD_MAX as int) + (
        COORD_MAX as int)) by (nonlinear_arith);
    }
}

proof fn lemma_count_pos_witness(s: Seq<bool>)
    requires
        count_true(s) != 0,
    ensures
        exists|i: int| 0 <= i < s.len() && s[i],
    decreases s.len(),
{
    if s.len() > 0 {
        if s.last() {
        } else {
            lemma_count_pos_witness(s.drop_last());
            let i = choose|i: int| 0 <= i < s.drop_last().len() && s.drop_last()[i];
            assert(s[i]);
        }
    }
}

proof fn lemma_count_true_le(a: Seq<bool>, b: Seq<bool>)
    requires
        a.len() == b.len(),
        forall|i: int| 0 <= i < a.len() && a[i] ==> b[i],
    ensures
        count_true(a) <= count_true(b),
    decreases a.len(),
{
    if a.len() > 0 {
        assert forall|i: int| 0 <= i < a.drop_last().len() && a.drop_last()[i] implies b.drop_last()[i] by {
            assert(a.drop_last()[i] == a[i]);
            assert(b.drop_last()[i] == b[i]);
        }
        lemma_count_true_le(a.drop_last(), b.drop_last());
    }
}

proof fn lemma_sum_add_on_flags(
    olds: Seq<i64>,
    news: Seq<i64>,
    flags: Seq<bool>,
    add: int,
)
    requires
        olds.len() == news.len(),
        flags.len() == olds.len(),
        forall|i: int| 0 <= i < olds.len() && flags[i] ==> #[trigger] news[i] as int == olds[i] + add,
        forall|i: int| 0 <= i < olds.len() && !flags[i] ==> #[trigger] news[i] == olds[i],
    ensures
        sum_i64s(news) == sum_i64s(olds) + count_true(flags) * add,
    decreases olds.len(),
{
    if olds.len() == 0 {
        assert(count_true(flags) * add == 0) by (nonlinear_arith)
            requires
                count_true(flags) == 0,
        ;
    } else {
        assert forall|i: int|
            0 <= i < olds.drop_last().len() && flags.drop_last()[i] implies #[trigger] news.drop_last()[i] as int
            == olds.drop_last()[i] + add by {
            assert(news.drop_last()[i] == news[i]);
            assert(olds.drop_last()[i] == olds[i]);
            assert(flags.drop_last()[i] == flags[i]);
        }
        assert forall|i: int|
            0 <= i < olds.drop_last().len() && !flags.drop_last()[i] implies #[trigger] news.drop_last()[i]
            == olds.drop_last()[i] by {
            assert(news.drop_last()[i] == news[i]);
            assert(olds.drop_last()[i] == olds[i]);
            assert(flags.drop_last()[i] == flags[i]);
        }
        lemma_sum_add_on_flags(olds.drop_last(), news.drop_last(), flags.drop_last(), add);
        if flags.last() {
            assert((count_true(flags.drop_last()) + 1) * add == count_true(flags.drop_last()) * add
                + add) by (nonlinear_arith);
        }
    }
}

/// All growable entries hold one and the same width.
pub open spec fn all_equal_grow(ws: Seq<i64>, grows: Seq<bool>) -> bool {
    forall|i: int, j: int|
        0 <= i < ws.len() && 0 <= j < ws.len() && grows[i] && grows[j] ==> (#[trigger] ws[i])
            == (#[trigger] ws[j])
}

/// Every growable entry can take `share` more without passing its limit.
pub open spec fn headroom_ok(ws: Seq<i64>, grows: Seq<bool>, maxes: Seq<i64>, share: int) -> bool {
    forall|i: int|
        0 <= i < ws.len() && grows[i] ==> (#[trigger] maxes[i]) as int >= ws[i] + share
}

/// Growable entries at or after position `j` whose width reads `s`.
pub open spec fn count_min_from(a: Seq<bool>, w: Seq<i64>, s: i64, j: int) -> int
    decreases a.len() - j,
{
    if j < 0 || j >= a.len() || a.len() != w.len() {
        0
    } else {
        (if a[j] && w[j] == s {
            1int
        } else {
            0int
        }) + count_min_from(a, w, s, j + 1)
    }
}

proof fn lemma_count_min_from_le(a: Seq<bool>, w: Seq<i64>, s: i64, j: int)
    requires
        a.len() == w.len(),
        0 <= j <= a.len(),
    ensures
        count_min_from(a, w, s, j) <= count_true(a) - count_true(a.take(j)),
        count_min_from(a, w, s, j) >= 0,
    decreases a.len() - j,
{
    if j == a.len() {
        assert(a.take(j) =~= a);
    } else {
        lemma_count_min_from_le(a, w, s, j + 1);
        assert(a.take(j + 1).drop_last() =~= a.take(j));
        assert(a.take(j + 1).last() == a[j]);
    }
}

/// Spreads free main-axis space over the growable children: repeatedly raise
/// the currently smallest growable width, never past its own upper limit,
/// until the space is used up, everything is at its limit, or a whole round
/// would hand out nothing. Children whose flag is unset are never touched.
/// Returns the space left over; what was handed out never exceeds what was
/// available.
pub fn distribute(widths: &mut Vec<i64>, maxes: &Vec<i64>, grows: &Vec<bool>, rem0: i64) -> (remf:
    i64)
    requires
        old(widths)@.len() == maxes@.len(),
        old(widths)@.len() == grows@.len(),
        forall|i: int|
            0 <= i < old(widths)@.len() ==> -COORD_MAX <= #[trigger] old(widths)@[i] <= COORD_MAX,
        forall|i: int| 0 <= i < maxes@.len() ==> -COORD_MAX <= #[trigger] maxes@[i] <= COORD_MAX,
        -COORD_MAX <= rem0 <= COORD_MAX,
    ensures
        final(widths)@.len() == old(widths)@.len(),
        forall|i: int|
            0 <= i < grows@.len() && !grows@[i] ==> final(widths)@[i] == old(widths)@[i],
        forall|i: int|
            0 <= i < grows@.len() && grows@[i] ==> min2(old(widths)@[i] as int, maxes@[i] as int)
                <= #[trigger] final(widths)@[i] as int <= max2(
                old(widths)@[i] as int,
                maxes@[i] as int,
            ),
        forall|i: int|
            0 <= i < final(widths)@.len() ==> -COORD_MAX <= #[trigger] final(widths)@[i]
                <= COORD_MAX,
        rem0 <= 0 ==> final(widths)@ == old(widths)@ && remf == rem0,
        rem0 > 0 ==> remf >= 0,
        sum_i64s(final(widths)@) + remf <= sum_i64s(old(widths)@) + rem0,
        rem0 > 0 ==> remf == 0 || (remf as int) < count_true(grows@) || (forall|i: int|
            0 <= i < grows@.len() && grows@[i] ==> #[trigger] final(widths)@[i] == maxes@[i]),
        (rem0 > 0 && count_true(grows@) > 0 && all_equal_grow(old(widths)@, grows@) && headroom_ok(
            old(widths)@,
            grows@,
            maxes@,
            rem0 as int / count_true(grows@),
        )) ==> {
            &&& forall|i: int|
                0 <= i < grows@.len() && grows@[i] ==> #[trigger] final(widths)@[i] as int == old(
                    widths,
                )@[i] + rem0 as int / count_true(grows@)
            &&& remf as int == rem0 as int % count_true(grows@)
        },
{
    let n = widths.len();
    if rem0 <= 0 {
        return rem0;
    }
    let ghost w0all = widths@;
    let mut cnt: usize = 0;
    let mut first_w: i64 = 0;
    let mut have = false;
    let mut uniform = true;
    let mut k0: usize = 0;
    while k0 < n
        invariant
            n == widths@.len(),
            n == grows@.len(),
            widths@ == w0all,
            k0 <= n,
            cnt == count_true(grows@.take(k0 as int)),
            cnt <= k0,
            have ==> cnt >= 1,
            have <==> exists|j: int| 0 <= j < k0 && grows@[j],
            have ==> exists|j: int| 0 <= j < k0 && #[trigger] grows@[j] && widths@[j] == first_w,
            (uniform && have) ==> forall|j: int|
                0 <= j < k0 && #[trigger] grows@[j] ==> widths@[j] == first_w,
            !uniform ==> !all_equal_grow(widths@, grows@),
        decreases n - k0,
    {
        proof {
            assert(grows@.take(k0 + 1 as int).drop_last() =~= grows@.take(k0 as int));
            assert(grows@.take(k0 + 1 as int).last() == grows@[k0 as int]);
        }
        if grows[k0] {
            if !have {
                have = true;
                first_w = widths[k0];
                cnt = cnt + 1;
            } else {
                cnt = cnt + 1;
                if widths[k0] != first_w {
                    uniform = false;
                }
            }
        }
        k0 += 1;
    }
    proof {
        assert(grows@.take(n as int) =~= grows@);
        assert(cnt == count_true(grows@));
        lemma_count_true_nonneg(grows@);
    }
    let mut fits = true;
    let ghost mut share_g: int = 0;
    if have && uniform {
        let share: i64 = ((rem0 as u64) / (cnt as u64)) as i64;
        proof {
            share_g = share as int;
        }
        proof {
            vstd::arithmetic::div_mod::lemma_fundamental_div_mod(rem0 as int, cnt as int);
            assert(share as int == rem0 as int / cnt as int) by {
                vstd::arithmetic::div_mod::lemma_div_is_div_recursive(rem0 as int, cnt as int);
            }
            vstd::arithmetic::div_mod::lemma_div_pos_is_pos(rem0 as int, cnt as int);
            assert(share as int <= rem0) by {
                vstd::arithmetic::div_mod::lemma_div_is_ordered_by_denominator(
                    rem0 as int,
                    1,
                    cnt as int,
                );
            }
        }
        let mut k1: usize = 0;
        while k1 < n
            invariant
                n == widths@.len(),
                n == grows@.len(),
                n == maxes@.len(),
                widths@ == w0all,
                0 <= share <= rem0 <= COORD_MAX,
                forall|i: int| 0 <= i < n ==> -COORD_MAX <= #[trigger] widths@[i] <= COORD_MAX,
                k1 <= n,
                fits ==> forall|j: int|
                    0 <= j < k1 && #[trigger] grows@[j] ==> maxes@[j] as int >= widths@[j] + share,
                !fits ==> !headroom_ok(widths@, grows@, maxes@, share as int),
            decreases n - k1,
        {
            if grows[k1] {
                if maxes[k1] < widths[k1] + share {
                    fits = false;
                }
            }
            k1 += 1;
        }
        if fits {
            let ghost pre = widths@;
            let mut k2: usize = 0;
            while k2 < n
                invariant
                    n == widths@.len(),
                    n == grows@.len(),
                    n == maxes@.len(),
                    n == pre.len(),
                    0 <= share <= rem0 <= COORD_MAX,
                    forall|i: int| 0 <= i < n ==> -COORD_MAX <= #[trigger] pre[i] <= COORD_MAX,
                    forall|i: int| 0 <= i < n ==> -COORD_MAX <= #[trigger] maxes@[i] <= COORD_MAX,
                    forall|j: int|
                        0 <= j < n && #[trigger] grows@[j] ==> maxes@[j] as int >= pre[j] + share,
                    k2 <= n,
                    forall|j: int|
                        0 <= j < k2 && #[trigger] grows@[j] ==> widths@[j] as int == pre[j] + share,
                    forall|j: int| 0 <= j < n && !(k2 <= j < n) && !grows@[j] ==> #[trigger] widths@[j] == pre[j],
                    forall|j: int| k2 <= j < n ==> #[trigger] widths@[j] == pre[j],
                decreases n - k2,
            {
                if grows[k2] {
                    let nv = widths[k2] + share;
                    let slot = &mut widths[k2];
                    *slot = nv;
                }
                k2 += 1;
            }
            let rem_left: i64 = ((rem0 as u64) % (cnt as u64)) as i64;
            proof {
                vstd::arithmetic::div_mod::lemma_fundamental_div_mod(rem0 as int, cnt as int);
                assert(rem_left as int == rem0 as int % cnt as int) by {
                    vstd::arithmetic::div_mod::lemma_mod_is_mod_recursive(rem0 as int, cnt as int);
                }
                lemma_sum_add_on_flags(pre, widths@, grows@, share as int);
                assert(sum_i64s(widths@) + rem_left == sum_i64s(pre) + rem0) by {
                    assert(rem0 as int == (cnt as int) * (share as int) + rem_left as int);
                    assert(count_true(grows@) * (share as int) == (cnt as int) * (share as int));
                }
                assert(rem_left < cnt) by {
                    vstd::arithmetic::div_mod::lemma_mod_bound(rem0 as int, cnt as int);
                }
            }
            return rem_left;
        }
    }
    proof {
        if !(have && uniform) {
            if !have {
                assert(count_true(grows@) == 0) by {
                    if count_true(grows@) != 0 {
                        lemma_count_pos_witness(grows@);
                    }
                }
            }
        }
    }
    let ghost w0 = widths@;
    let ghost total0 = sum_i64s(w0) + rem0;
    let mut active: Vec<bool> = Vec::new();
    let mut k: usize = 0;
    while k < n
        invariant
            n == grows@.len(),
            k <= n,
            active@.len() == k,
            forall|i: int| 0 <= i < k ==> active@[i] == grows@[i],
        decreases n - k,
    {
        active.push(grows[k]);
        k += 1;
    }
    let mut rem: i64 = rem0;
    let mut running = true;
    while running && rem > 0
        invariant
            n == widths@.len(),
            n == maxes@.len(),
            n == grows@.len(),
            n == active@.len(),
            n == w0.len(),
            forall|i: int| 0 <= i < n ==> -COORD_MAX <= #[trigger] w0[i] <= COORD_MAX,
            forall|i: int| 0 <= i < n ==> -COORD_MAX <= #[trigger] maxes@[i] <= COORD_MAX,
            0 <= rem <= COORD_MAX,
            forall|i: int| 0 <= i < n && #[trigger] active@[i] ==> grows@[i],
            forall|i: int| 0 <= i < n && !grows@[i] ==> #[trigger] widths@[i] == w0[i],
            forall|i: int|
                0 <= i < n && grows@[i] ==> min2(w0[i] as int, maxes@[i] as int)
                    <= #[trigger] widths@[i] as int <= max2(w0[i] as int, maxes@[i] as int),
            forall|i: int| 0 <= i < n ==> -COORD_MAX <= #[trigger] widths@[i] <= COORD_MAX,
            sum_i64s(widths@) + rem <= total0,
            total0 == sum_i64s(w0) + rem0,
            forall|i: int|
                0 <= i < n && grows@[i] && !(#[trigger] active@[i]) ==> widths@[i] == maxes@[i],
            !running ==> rem == 0 || (rem as int) < count_true(grows@) || (forall|i: int|
                0 <= i < n && grows@[i] ==> #[trigger] widths@[i] == maxes@[i]),
        decreases count_true(active@), rem, (if running {
            1int
        } else {
            0int
        }),
    {
        let ghost entry_active = active@;
        let ghost entry_w = widths@;
        let ghost entry_rem = rem;
        let mut count: usize = 0;
        let mut smallest: i64 = 0;
        let mut second: Option<i64> = Option::None;
        let mut found = false;
        let mut i: usize = 0;
        while i < n
            invariant
                n == widths@.len(),
                n == active@.len(),
                active@ == entry_active,
                widths@ == entry_w,
                i <= n,
                found <==> exists|j: int| 0 <= j < i && active@[j],
                found ==> exists|j: int|
                    0 <= j < i && #[trigger] active@[j] && widths@[j] == smallest,
                found ==> forall|j: int| 0 <= j < i && #[trigger] active@[j] ==> widths@[j]
                    >= smallest,
                count == count_true(active@.take(i as int)),
                count <= i,
                !found ==> count == 0,
                !found ==> second is None,
                found ==> count > 0,
                second matches Some(s) ==> s > smallest,
                second matches Some(s) ==> exists|j: int|
                    0 <= j < i && #[trigger] active@[j] && widths@[j] == s,
            decreases n - i,
        {
            proof {
                assert(active@.take(i + 1 as int).drop_last() =~= active@.take(i as int));
                assert(active@.take(i + 1 as int).last() == active@[i as int]);
            }
            if active[i] {
                let w = widths[i];
                if !found {
                    found = true;
                    smallest = w;
                    count = 1;
                } else {
                    count += 1;
                    if w < smallest {
                        second = Option::Some(smallest);
                        smallest = w;
                    } else if w > smallest {
                        second = match second {
                            Option::Some(s) => if w < s {
                                Option::Some(w)
                            } else {
                                Option::Some(s)
                            },
                            Option::None => Option::Some(w),
                        };
                    }
                }
            } else {
                proof {
                    assert(count == count_true(active@.take(i + 1 as int)));
                }
            }
            i += 1;
        }
        if !found {
            proof {
                assert forall|i2: int| 0 <= i2 < n && grows@[i2] implies #[trigger] widths@[i2]
                    == maxes@[i2] by {
                    assert(!active@[i2]);
                }
            }
            running = false;
            continue ;
        }
        proof {
            assert(active@.take(n as int) =~= active@);
            assert(count == count_true(active@));
        }
        let share: i64 = ((rem as u64) / (count as u64)) as i64;
        proof {
            assert((rem as u64) / (count as u64) <= rem as u64);
            vstd::arithmetic::div_mod::lemma_fundamental_div_mod(rem as int, count as int);
            assert((count as int) * ((rem as int) / (count as int)) <= rem as int);
            assert(share as int == (rem as int) / (count as int)) by {
                vstd::arithmetic::div_mod::lemma_div_is_div_recursive(rem as int, count as int);
            }
        }
        let wta: i64 = match second {
            Option::Some(s) => {
                proof {
                    assert(-COORD_MAX <= smallest <= COORD_MAX);
                    assert(-COORD_MAX <= s <= COORD_MAX);
                }
                let d = s - smallest;
                if d < share {
                    d
                } else {
                    share
                }
            },
            Option::None => share,
        };
        if wta <= 0 {
            proof {
                if share > 0 {
                    assert(second matches Option::Some(s2) ==> s2 > smallest);
                    assert(wta > 0);
                }
                assert(share == 0);
                vstd::arithmetic::div_mod::lemma_mod_bound(rem as int, count as int);
                assert(rem as int == (count as int) * (share as int) + (rem as int) % (
                count as int));
                assert((count as int) * (share as int) == 0) by (nonlinear_arith)
                    requires
                        share as int == 0,
                ;
                assert((rem as int) < count as int);
                lemma_count_true_le(active@, grows@);
                assert((rem as int) < count_true(grows@));
            }
            running = false;
            continue ;
        }
        proof {
            lemma_count_min_from_le(entry_active, entry_w, smallest, 0);
            assert(entry_active.take(0) =~= Seq::<bool>::empty());
            assert(count_true(Seq::<bool>::empty()) == 0);
            assert(count_min_from(entry_active, entry_w, smallest, 0) <= count as int);
            assert((wta as int) * count_min_from(entry_active, entry_w, smallest, 0)
                <= entry_rem as int) by (nonlinear_arith)
                requires
                    0 < wta as int <= share as int,
                    0 <= count_min_from(entry_active, entry_w, smallest, 0) <= count as int,
                    (count as int) * (share as int) <= entry_rem as int,
            ;
        }
        let ghost mut hit_min: bool = false;
        let mut new_w: Vec<i64> = Vec::new();
        let mut new_active: Vec<bool> = Vec::new();
        let ghost entry_rem2 = rem;
        let mut j: usize = 0;
        while j < n
            invariant
                n == widths@.len(),
                n == maxes@.len(),
                n == grows@.len(),
                n == active@.len(),
                n == w0.len(),
                j <= n,
                new_w@.len() == j,
                new_active@.len() == j,
                0 < wta,
                wta as int <= entry_rem2 as int,
                entry_rem2 <= COORD_MAX,
                rem as int >= (wta as int) * count_min_from(active@, widths@, smallest, j as int),
                rem <= COORD_MAX,
                forall|i2: int| 0 <= i2 < n ==> -COORD_MAX <= #[trigger] w0[i2] <= COORD_MAX,
                forall|i2: int| 0 <= i2 < n ==> -COORD_MAX <= #[trigger] maxes@[i2] <= COORD_MAX,
                forall|i2: int| 0 <= i2 < n && #[trigger] active@[i2] ==> grows@[i2],
                forall|i2: int| 0 <= i2 < n && !grows@[i2] ==> #[trigger] widths@[i2] == w0[i2],
                forall|i2: int|
                    0 <= i2 < n && grows@[i2] ==> min2(w0[i2] as int, maxes@[i2] as int)
                        <= #[trigger] widths@[i2] as int <= max2(w0[i2] as int, maxes@[i2] as int),
                forall|i2: int| 0 <= i2 < n ==> -COORD_MAX <= #[trigger] widths@[i2] <= COORD_MAX,
                forall|q: int| #![all_triggers]
                    0 <= q < j ==> {
                        if active@[q] && widths@[q] == smallest {
                            if widths@[q] + wta > maxes@[q] {
                                new_w@[q] == maxes@[q] && new_active@[q] == false
                            } else {
                                new_w@[q] == widths@[q] + wta && new_active@[q] == active@[q]
                            }
                        } else {
                            new_w@[q] == widths@[q] && new_active@[q] == active@[q]
                        }
                    },
                sum_i64s(new_w@) - sum_i64s(widths@.take(j as int)) <= entry_rem2 - rem,
                count_true(new_active@) <= count_true(active@.take(j as int)),
                count_true(new_active@) < count_true(active@.take(j as int)) || rem as int
                    <= entry_rem2 as int,
                hit_min ==> count_true(new_active@) < count_true(active@.take(j as int)) || rem
                    as int <= entry_rem2 - wta,
                (exists|q: int|
                    j <= q < n && #[trigger] active@[q] && widths@[q] == smallest) || hit_min,
            decreases n - j,
        {
            let ghost pre_nw = new_w@;
            let ghost pre_na = new_active@;
            proof {
                lemma_count_min_from_le(active@, widths@, smallest, j as int);
                lemma_count_min_from_le(active@, widths@, smallest, j + 1 as int);
                assert(widths@.take(j + 1 as int).drop_last() =~= widths@.take(j as int));
                assert(widths@.take(j + 1 as int).last() == widths@[j as int]);
                assert(active@.take(j + 1 as int).drop_last() =~= active@.take(j as int));
                assert(active@.take(j + 1 as int).last() == active@[j as int]);
                assert forall|q: int| #![trigger pre_nw[q]]
                    0 <= q < j implies {
                        if active@[q] && widths@[q] == smallest {
                            if widths@[q] + wta > maxes@[q] {
                                pre_nw[q] == maxes@[q] && pre_na[q] == false
                            } else {
                                pre_nw[q] == widths@[q] + wta && pre_na[q] == active@[q]
                            }
                        } else {
                            pre_nw[q] == widths@[q] && pre_na[q] == active@[q]
                        }
                    } by {
                    assert(new_w@[q] == pre_nw[q]);
                    assert(new_active@[q] == pre_na[q]);
                }
            }
            if active[j] && widths[j] == smallest {
                proof {
                    assert(count_min_from(active@, widths@, smallest, j as int) == 1
                        + count_min_from(active@, widths@, smallest, j + 1 as int));
                    assert((wta as int) * count_min_from(active@, widths@, smallest, j as int)
                        == (wta as int) * count_min_from(active@, widths@, smallest, j + 1 as int)
                        + wta as int) by (nonlinear_arith)
                        requires
                            count_min_from(active@, widths@, smallest, j as int) == 1
                                + count_min_from(active@, widths@, smallest, j + 1 as int),
                    ;
                    assert((wta as int) * count_min_from(active@, widths@, smallest, j + 1 as int)
                        >= 0) by (nonlinear_arith)
                        requires
                            wta as int > 0,
                            count_min_from(active@, widths@, smallest, j + 1 as int) >= 0,
                    ;
                }
                let wj = widths[j];
                let mj = maxes[j];
                if wj + wta > mj {
                    let consumed_rem: i128 = (rem as i128) - ((mj as i128) - (wj as i128));
                    new_w.push(mj);
                    new_active.push(false);
                    rem = sat64(consumed_rem);
                    proof {
                        assert(new_w@.drop_last() =~= pre_nw);
                        assert(new_active@.drop_last() =~= pre_na);
                        assert forall|q: int| #![trigger new_w@[q]] 0 <= q < j implies new_w@[q]
                            == pre_nw[q] && new_active@[q] == pre_na[q] by {
                            assert(new_w@[q] == new_w@.drop_last()[q]);
                            assert(new_active@[q] == new_active@.drop_last()[q]);
                        }
                        assert forall|q: int| #![trigger new_w@[q]]
                            0 <= q < j + 1 implies {
                                if active@[q] && widths@[q] == smallest {
                                    if widths@[q] + wta > maxes@[q] {
                                        new_w@[q] == maxes@[q] && new_active@[q] == false
                                    } else {
                                        new_w@[q] == widths@[q] + wta && new_active@[q] == active@[q]
                                    }
                                } else {
                                    new_w@[q] == widths@[q] && new_active@[q] == active@[q]
                                }
                            } by {
                            if q < j {
                                assert(new_w@[q] == pre_nw[q]);
                                assert(pre_nw[q] == pre_nw[q]);
                            }
                        }
                        hit_min = true;
                    }
                } else {
                    new_w.push(wj + wta);
                    new_active.push(active[j]);
                    rem = rem - wta;
                    proof {
                        assert(new_w@.drop_last() =~= pre_nw);
                        assert(new_active@.drop_last() =~= pre_na);
                        assert forall|q: int| #![trigger new_w@[q]] 0 <= q < j implies new_w@[q]
                            == pre_nw[q] && new_active@[q] == pre_na[q] by {
                            assert(new_w@[q] == new_w@.drop_last()[q]);
                            assert(new_active@[q] == new_active@.drop_last()[q]);
                        }
                        assert forall|q: int| #![trigger new_w@[q]]
                            0 <= q < j + 1 implies {
                                if active@[q] && widths@[q] == smallest {
                                    if widths@[q] + wta > maxes@[q] {
                                        new_w@[q] == maxes@[q] && new_active@[q] == false
                                    } else {
                                        new_w@[q] == widths@[q] + wta && new_active@[q] == active@[q]
                                    }
                                } else {
                                    new_w@[q] == widths@[q] && new_active@[q] == active@[q]
                                }
                            } by {
                            if q < j {
                                assert(new_w@[q] == pre_nw[q]);
                                assert(pre_nw[q] == pre_nw[q]);
                            }
                        }
                        hit_min = true;
                    }
                }
            } else {
                new_w.push(widths[j]);
                new_active.push(active[j]);
                proof {
                    assert(count_min_from(active@, widths@, smallest, j as int)
                        == count_min_from(active@, widths@, smallest, j + 1 as int));
                    assert(new_w@.drop_last() =~= pre_nw);
                    assert(new_active@.drop_last() =~= pre_na);
                    assert forall|q: int| #![trigger new_w@[q]] 0 <= q < j implies new_w@[q]
                        == pre_nw[q] && new_active@[q] == pre_na[q] by {
                        assert(new_w@[q] == new_w@.drop_last()[q]);
                        assert(new_active@[q] == new_active@.drop_last()[q]);
                    }
                    assert forall|q: int| #![trigger new_w@[q]]
                        0 <= q < j + 1 implies {
                            if active@[q] && widths@[q] == smallest {
                                if widths@[q] + wta > maxes@[q] {
                                    new_w@[q] == maxes@[q] && new_active@[q] == false
                                } else {
                                    new_w@[q] == widths@[q] + wta && new_active@[q] == active@[q]
                                }
                            } else {
                                new_w@[q] == widths@[q] && new_active@[q] == active@[q]
                            }
                        } by {
                        if q < j {
                            assert(new_w@[q] == pre_nw[q]);
                        }
                    }
                }
            }
            proof {
                assert forall|q: int| #![trigger new_w@[q]]
                    0 <= q < j + 1 implies {
                        if active@[q] && widths@[q] == smallest {
                            if widths@[q] + wta > maxes@[q] {
                                new_w@[q] == maxes@[q] && new_active@[q] == false
                            } else {
                                new_w@[q] == widths@[q] + wta && new_active@[q] == active@[q]
                            }
                        } else {
                            new_w@[q] == widths@[q] && new_active@[q] == active@[q]
                        }
                    } by {
                    if q < j {
                        assert(new_w@[q] == pre_nw[q]);
                        assert(new_active@[q] == pre_na[q]);
                    }
                }
            }
            j += 1;
        }
        proof {
            if !hit_min {
                assert(false);
            }
            assert(widths@.take(n as int) =~= widths@);
            assert(active@.take(n as int) =~= active@);
            lemma_count_true_nonneg(new_active@);
            lemma_count_true_nonneg(active@);
        }
        let ghost res_w = new_w@;
        let ghost res_a = new_active@;
        let ghost old_w_seq = widths@;
        let ghost old_a_seq = active@;
        proof {
            assert forall|q: int| #![trigger res_w[q]] #![trigger res_a[q]]
                0 <= q < n implies {
                    if old_a_seq[q] && old_w_seq[q] == smallest {
                        if old_w_seq[q] + wta > maxes@[q] {
                            res_w[q] == maxes@[q] && res_a[q] == false
                        } else {
                            res_w[q] == old_w_seq[q] + wta && res_a[q] == old_a_seq[q]
                        }
                    } else {
                        res_w[q] == old_w_seq[q] && res_a[q] == old_a_seq[q]
                    }
                } by {
                assert(new_w@[q] == res_w[q]);
            }
        }
        *widths = new_w;
        active = new_active;
        proof {
            assert(widths@ == res_w);
            assert(active@ == res_a);
            assert forall|i2: int| 0 <= i2 < n && #[trigger] active@[i2] implies grows@[i2] by {
                assert(res_a[i2] && res_w[i2] == res_w[i2]);
                assert(old_a_seq[i2]);
            }
            assert forall|i2: int| 0 <= i2 < n && !grows@[i2] implies #[trigger] widths@[i2]
                == w0[i2] by {
                assert(res_w[i2] == old_w_seq[i2]);
            }
            assert forall|i2: int|
                0 <= i2 < n && grows@[i2] implies min2(w0[i2] as int, maxes@[i2] as int)
                    <= #[trigger] widths@[i2] as int <= max2(w0[i2] as int, maxes@[i2] as int) by {
                assert(res_w[i2] == widths@[i2]);
                assert(old_w_seq[i2] as int <= max2(w0[i2] as int, maxes@[i2] as int));
            }
            assert forall|i2: int| 0 <= i2 < n implies -COORD_MAX <= #[trigger] widths@[i2]
                <= COORD_MAX by {
                assert(res_w[i2] == widths@[i2]);
            }
            assert forall|i2: int|
                0 <= i2 < n && grows@[i2] && !(#[trigger] active@[i2]) implies widths@[i2]
                == maxes@[i2] by {
                assert(res_w[i2] == widths@[i2] && res_a[i2] == active@[i2]);
                if old_a_seq[i2] && old_w_seq[i2] == smallest {
                    if old_w_seq[i2] + wta > maxes@[i2] {
                    } else {
                        assert(res_a[i2] == old_a_seq[i2]);
                    }
                } else {
                    assert(res_w[i2] == old_w_seq[i2] && res_a[i2] == old_a_seq[i2]);
                }
            }
        }
        if rem <= 0 {
            running = false;
        }
    }
    proof {
        if rem0 > 0 && count_true(grows@) > 0 && all_equal_grow(w0all, grows@) && headroom_ok(
            w0all,
            grows@,
            maxes@,
            rem0 as int / count_true(grows@),
        ) {
            lemma_count_pos_witness(grows@);
            assert(have);
            assert(uniform);
            assert(share_g == rem0 as int / count_true(grows@));
            assert(fits);
            assert(false);
        }
    }
    rem
}

/// A fraction of `w`, truncated towards zero: the numerator `p` counts
/// against `PERCENT_SCALE`.
pub open spec fn percent_of(w: int, p: int) -> int {
    if w >= 0 {
        (w * p) / (PERCENT_SCALE as int)
    } else {
        -(((-w) * p) / (PERCENT_SCALE as int))
    }
}

/// Whether an element is a container whose width policy is `Grow`.
pub open spec fn is_grow_w(e: Element) -> bool {
    match e {
        Element::Container(c) => c.config.sizing.width is Grow,
        _ => false,
    }
}

/// The width limit a growable element may be raised to.
pub open spec fn grow_max_w(e: Element) -> int {
    match e {
        Element::Container(c) => match c.config.sizing.width {
            SizingAxis::Grow(mm) => mm.max as int,
            _ => 0,
        },
        _ => 0,
    }
}

/// The width a growable element may not shrink below.
pub open spec fn grow_min_w(e: Element) -> int {
    match e {
        Element::Container(c) => match c.config.sizing.width {
            SizingAxis::Grow(mm) => mm.min as int,
            _ => 0,
        },
        _ => 0,
    }
}

/// The width a child enters the distribution with: a `Percent` child takes
/// its fraction of the parent width `w`, every other child keeps its own.
pub open spec fn child_pw(w: int, c: LayoutModel) -> int {
    match c.element {
        Element::Container(cc) => match cc.config.sizing.width {
            SizingAxis::Percent(p) => percent_of(w, p as int),
            _ => c.width,
        },
        _ => c.width,
    }
}

/// Sum of a row of integers.
pub open spec fn sum_ints(s: Seq<int>) -> int
    decreases s.len(),
{
    if s.len() == 0 {
        0
    } else {
        sum_ints(s.drop_last()) + s.last()
    }
}

proof fn lemma_sum_cast(s: Seq<i64>, t: Seq<int>)
    requires
        t.len() == s.len(),
        forall|i: int| 0 <= i < s.len() ==> #[trigger] t[i] == s[i] as int,
    ensures
        sum_ints(t) == sum_i64s(s),
    decreases s.len(),
{
    if s.len() > 0 {
        assert(t.drop_last().len() == s.drop_last().len());
        assert forall|i: int| 0 <= i < s.drop_last().len() implies #[trigger] t.drop_last()[i]
            == s.drop_last()[i] as int by {
            assert(t.drop_last()[i] == t[i]);
            assert(s.drop_last()[i] == s[i]);
        }
        lemma_sum_cast(s.drop_last(), t.drop_last());
    }
}

/// Sum of the widths a row of children enters the distribution with, given
/// the parent width `w`.
pub open spec fn sum_child_pw(cs: Seq<LayoutModel>, w: int) -> int
    decreases cs.len(),
{
    if cs.len() == 0 {
        0
    } else {
        sum_child_pw(cs.drop_last(), w) + child_pw(w, cs.last())
    }
}

proof fn lemma_sum_child_pw(cs: Seq<LayoutModel>, w: int, t: Seq<int>)
    requires
        t.len() == cs.len(),
        forall|i: int| 0 <= i < cs.len() ==> #[trigger] t[i] == child_pw(w, cs[i]),
    ensures
        sum_ints(t) == sum_child_pw(cs, w),
    decreases cs.len(),
{
    if cs.len() > 0 {
        assert forall|i: int| 0 <= i < cs.drop_last().len() implies #[trigger] t.drop_last()[i]
            == child_pw(w, cs.drop_last()[i]) by {
            assert(t.drop_last()[i] == t[i]);
            assert(cs.drop_last()[i] == cs[i]);
        }
        lemma_sum_child_pw(cs.drop_last(), w, t.drop_last());
    }
}

/// How many children of a row can grow in width.
pub open spec fn count_grow_w(cs: Seq<LayoutModel>) -> int
    decreases cs.len(),
{
    if cs.len() == 0 {
        0
    } else {
        count_grow_w(cs.drop_last()) + if is_grow_w(cs.last().element) {
            1int
        } else {
            0int
        }
    }
}

/// Every growable child enters the distribution with the same width.
pub open spec fn grow_pw_uniform(cs: Seq<LayoutModel>, w: int) -> bool {
    forall|i: int, j: int|
        0 <= i < cs.len() && 0 <= j < cs.len() && is_grow_w(cs[i].element) && is_grow_w(
            cs[j].element,
        ) ==> child_pw(w, #[trigger] cs[i]) == child_pw(w, #[trigger] cs[j])
}

/// Every growable child can take `share` more width within its limit.
pub open spec fn grow_headroom_w(cs: Seq<LayoutModel>, w: int, share: int) -> bool {
    forall|i: int|
        0 <= i < cs.len() && is_grow_w((#[trigger] cs[i]).element) ==> grow_max_w(cs[i].element)
            >= child_pw(w, cs[i]) + share
}

proof fn lemma_count_grow_w_cast(cs: Seq<LayoutModel>, flags: Seq<bool>)
    requires
        flags.len() == cs.len(),
        forall|i: int| 0 <= i < cs.len() ==> #[trigger] flags[i] == is_grow_w(cs[i].element),
    ensures
        count_true(flags) == count_grow_w(cs),
    decreases cs.len(),
{
    if cs.len() > 0 {
        assert forall|i: int| 0 <= i < cs.drop_last().len() implies #[trigger] flags.drop_last()[i]
            == is_grow_w(cs.drop_last()[i].element) by {
            assert(flags.drop_last()[i] == flags[i]);
            assert(cs.drop_last()[i] == cs[i]);
        }
        lemma_count_grow_w_cast(cs.drop_last(), flags.drop_last());
    }
}

/// What the main-axis distribution may leave behind, given the incoming
/// widths: children that cannot grow keep their width; growable children
/// move only between their incoming width and their limit; nothing moves
/// when no space is free; handed-out width never exceeds the free space;
/// at the end the space is used up to less than one unit per growable
/// child unless every growable child sits at its limit; and when all
/// growable children enter at one width with room for an equal share, each
/// receives exactly the free space divided evenly, the remainder left over.
pub open spec fn grow_w_outcome(
    cs: Seq<LayoutModel>,
    w: int,
    rem: int,
    ws: Seq<int>,
    remf: int,
) -> bool {
    &&& ws.len() == cs.len()
    &&& (forall|i: int|
        0 <= i < cs.len() && !is_grow_w(cs[i].element) ==> #[trigger] ws[i] == child_pw(w, cs[i]))
    &&& (forall|i: int|
        0 <= i < cs.len() && is_grow_w(cs[i].element) ==> min2(
            child_pw(w, cs[i]),
            grow_max_w(cs[i].element),
        ) <= #[trigger] ws[i] <= max2(child_pw(w, cs[i]), grow_max_w(cs[i].element)))
    &&& (rem <= 0 ==> remf == rem && forall|i: int|
        0 <= i < cs.len() ==> #[trigger] ws[i] == child_pw(w, cs[i]))
    &&& (rem > 0 ==> remf >= 0)
    &&& sum_ints(ws) + remf <= sum_child_pw(cs, w) + rem
    &&& (rem > 0 ==> remf == 0 || remf < count_grow_w(cs) || (forall|i: int|
        0 <= i < cs.len() && is_grow_w((#[trigger] cs[i]).element) ==> ws[i] == grow_max_w(
            cs[i].element,
        )))
    &&& ((rem > 0 && count_grow_w(cs) > 0 && grow_pw_uniform(cs, w) && grow_headroom_w(
        cs,
        w,
        rem / count_grow_w(cs),
    )) ==> (forall|i: int|
        0 <= i < cs.len() && is_grow_w((#[trigger] cs[i]).element) ==> ws[i] == child_pw(w, cs[i])
            + rem / count_grow_w(cs)) && remf == rem % count_grow_w(cs))
}

/// The children of a row after its free width was spread: some assignment
/// the distribution allows, each child then processed with its share.
pub open spec fn grow_w_distributed(b: LayoutModel, w: int, rem: int, a: LayoutModel) -> bool
    decreases b, 0int,
{
    exists|ws: Seq<int>, remf: int|
        {
            &&& #[trigger] grow_w_outcome(b.children, w, rem, ws, remf)
            &&& (forall|i: int|
                0 <= i < b.children.len() ==> grow_w_rel_at(
                    b.children[i],
                    ws[i],
                    #[trigger] a.children[i],
                ))
        }
}

/// Second sizing stage, described relative to a parent-imposed width `w`
/// for the node itself: every `Percent` child takes its fraction of `w`;
/// the space of `w` left after the children and the padding is handed to
/// the `Grow` children - wholesale across the layout axis, by fair
/// distribution along it - and each child is then processed the same way
/// with the width it was just given.
pub open spec fn grow_w_rel_at(b: LayoutModel, w: int, a: LayoutModel) -> bool
    decreases b, 1int,
{
    &&& a.x == b.x
    &&& a.y == b.y
    &&& a.height == b.height
    &&& a.element == b.element
    &&& a.width == w
    &&& a.children.len() == b.children.len()
    &&& match b.element {
        Element::Container(c) => {
            let cfg = c.config;
            let n = b.children.len() as int;
            let childw = if cfg.layout_direction is LeftToRight {
                sum_child_pw(b.children, w) + gap_sum(n, cfg.child_gap as int)
            } else {
                0
            };
            let rem = sat(w - childw - (cfg.padding.left + cfg.padding.right));
            if cfg.layout_direction is TopToBottom {
                forall|i: int|
                    0 <= i < n ==> grow_w_rel_at(
                        b.children[i],
                        if is_grow_w(b.children[i].element) {
                            spec_clamp(
                                rem,
                                grow_min_w(b.children[i].element),
                                grow_max_w(b.children[i].element),
                            )
                        } else {
                            child_pw(w, b.children[i])
                        },
                        #[trigger] a.children[i],
                    )
            } else {
                grow_w_distributed(b, w, rem, a)
            }
        },
        _ => forall|i: int|
            0 <= i < b.children.len() ==> grow_w_rel_at(
                b.children[i],
                child_pw(w, b.children[i]),
                #[trigger] a.children[i],
            ),
    }
}

/// One fraction step, with the result never larger in magnitude than `w`.
fn percent_mul(w: i64, p: i64) -> (r: i64)
    requires
        -COORD_MAX <= w <= COORD_MAX,
        0 <= p <= PERCENT_SCALE,
    ensures
        r as int == percent_of(w as int, p as int),
        -COORD_MAX <= r <= COORD_MAX,
        w >= 0 ==> 0 <= r <= w,
        w < 0 ==> w <= r <= 0,
{
    let scale_u: u128 = PERCENT_SCALE as u128;
    if w >= 0 {
        let aw = w as u128;
        proof {
            assert((aw as nat) * (p as nat) <= (0x1000_0000_0000_0000nat) * (
            0x1_0000_0000nat)) by (nonlinear_arith)
                requires
                    aw as nat <= 0x1000_0000_0000_0000nat,
                    p as nat <= 0x1_0000_0000nat,
            ;
        }
        let q = (aw * (p as u128)) / scale_u;
        proof {
            assert((aw * (p as u128)) as int == (w as int) * (p as int)) by (nonlinear_arith)
                requires
                    aw == w as u128,
                    0 <= w,
                    0 <= p,
            ;
            assert((w as int) * (p as int) <= (w as int) * (PERCENT_SCALE as int))
                by (nonlinear_arith)
                requires
                    0 <= w,
                    0 <= p <= PERCENT_SCALE,
            ;
            vstd::arithmetic::div_mod::lemma_div_is_ordered(
                (w as int) * (p as int),
                (w as int) * (PERCENT_SCALE as int),
                PERCENT_SCALE as int,
            );
            vstd::arithmetic::div_mod::lemma_div_multiples_vanish(
                w as int,
                PERCENT_SCALE as int,
            );
            assert(((w as int) * (p as int)) / (PERCENT_SCALE as int) <= w as int);
            vstd::arithmetic::div_mod::lemma_div_pos_is_pos((w as int) * (p as int), PERCENT_SCALE as int);
        }
        q as i64
    } else {
        let aw = (-w) as u128;
        proof {
            assert((aw as nat) * (p as nat) <= (0x1000_0000_0000_0000nat) * (
            0x1_0000_0000nat)) by (nonlinear_arith)
                requires
                    aw as nat <= 0x1000_0000_0000_0000nat,
                    p as nat <= 0x1_0000_0000nat,
            ;
        }
        let q = (aw * (p as u128)) / scale_u;
        proof {
            assert((aw * (p as u128)) as int == (-(w as int)) * (p as int)) by (nonlinear_arith)
                requires
                    aw == (-w) as u128,
                    w < 0,
                    -COORD_MAX <= w,
                    0 <= p,
            ;
            assert((-(w as int)) * (p as int) <= (-(w as int)) * (PERCENT_SCALE as int))
                by (nonlinear_arith)
                requires
                    w < 0,
                    0 <= p <= PERCENT_SCALE,
            ;
            vstd::arithmetic::div_mod::lemma_div_is_ordered(
                (-(w as int)) * (p as int),
                (-(w as int)) * (PERCENT_SCALE as int),
                PERCENT_SCALE as int,
            );
            vstd::arithmetic::div_mod::lemma_div_multiples_vanish(
                -(w as int),
                PERCENT_SCALE as int,
            );
            assert(((-(w as int)) * (p as int)) / (PERCENT_SCALE as int) <= -(w as int));
            vstd::arithmetic::div_mod::lemma_div_pos_is_pos(
                (-(w as int)) * (p as int),
                PERCENT_SCALE as int,
            );
        }
        -(q as i64)
    }
}

/// Runs the grow/percent width pass on a node whose own width has been
/// decided to be `w` by its parent, then on each child with the width this
/// pass hands it.
fn grow_width_at(node: ElementLayout, w: i64) -> (r: ElementLayout)
    requires
        configs_wf(node@),
        bounded(node@),
        -COORD_MAX <= w <= COORD_MAX,
    ensures
        grow_w_rel_at(node@, w as int, r@),
        configs_wf(r@),
        bounded(r@),
    decreases node,
{
    let ghost m = node@;
    let ElementLayout { position, dimensions, element, children } = node;
    let ghost orig = children@;
    proof {
        assert(children == node.children);
        assert(orig == node.children@);
        assert(m.children.len() == orig.len());
        assert forall|j: int| 0 <= j < orig.len() implies m.children[j] == orig[j]@ by {}
    }
    let n = children.len();
    let ghost pw_seq = Seq::new(m.children.len(), |i: int| child_pw(w as int, m.children[i]));
    let ghost maxes_seq = Seq::new(m.children.len(), |i: int| grow_max_w(m.children[i].element));
    let ghost mins_seq = Seq::new(m.children.len(), |i: int| grow_min_w(m.children[i].element));
    let ghost grows_seq = Seq::new(m.children.len(), |i: int| is_grow_w(m.children[i].element));
    let mut pws: Vec<i64> = Vec::new();
    let mut maxes: Vec<i64> = Vec::new();
    let mut mins: Vec<i64> = Vec::new();
    let mut grows: Vec<bool> = Vec::new();
    let mut i: usize = 0;
    while i < n
        invariant
            -COORD_MAX <= w <= COORD_MAX,
            n == children@.len(),
            n == m.children.len(),
            configs_wf(m),
            bounded(m),
            forall|j: int| 0 <= j < n ==> m.children[j] == children@[j]@,
            pw_seq == Seq::new(m.children.len(), |q: int| child_pw(w as int, m.children[q])),
            maxes_seq == Seq::new(m.children.len(), |q: int| grow_max_w(m.children[q].element)),
            mins_seq == Seq::new(m.children.len(), |q: int| grow_min_w(m.children[q].element)),
            grows_seq == Seq::new(m.children.len(), |q: int| is_grow_w(m.children[q].element)),
            i <= n,
            pws@.len() == i,
            maxes@.len() == i,
            mins@.len() == i,
            grows@.len() == i,
            forall|q: int| 0 <= q < i ==> #[trigger] pws@[q] as int == pw_seq[q],
            forall|q: int| 0 <= q < i ==> #[trigger] maxes@[q] as int == maxes_seq[q],
            forall|q: int| 0 <= q < i ==> #[trigger] mins@[q] as int == mins_seq[q],
            forall|q: int| 0 <= q < i ==> #[trigger] grows@[q] == grows_seq[q],
            forall|q: int| 0 <= q < i ==> -COORD_MAX <= #[trigger] pws@[q] <= COORD_MAX,
            forall|q: int| 0 <= q < i ==> -COORD_MAX <= #[trigger] maxes@[q] <= COORD_MAX,
            forall|q: int| 0 <= q < i ==> -COORD_MAX <= #[trigger] mins@[q] <= COORD_MAX,
        decreases n - i,
    {
        let c = &children[i];
        proof {
            assert(c@ == m.children[i as int]);
            assert(configs_wf(m.children[i as int]));
            assert(bounded(m.children[i as int]));
        }
        let mut is_grow = false;
        let mut gmax: i64 = 0;
        let mut gmin: i64 = 0;
        let mut gmin: i64 = 0;
        let mut pw: i64 = c.dimensions.width;
        match &c.element {
            Element::Container(cc) => {
                match cc.config.sizing.width {
                    SizingAxis::Percent(p) => {
                        proof {
                            assert(node_config_wf(m.children[i as int].element));
                        }
                        pw = percent_mul(w, p);
                    },
                    SizingAxis::Grow(mm) => {
                        is_grow = true;
                        gmax = mm.max;
                        gmin = mm.min;
                        proof {
                            assert(node_config_wf(m.children[i as int].element));
                            assert(-DIM_MAX <= mm.min <= mm.max <= DIM_MAX);
                        }
                    },
                    _ => {},
                }
            },
            _ => {},
        }
        pws.push(pw);
        maxes.push(gmax);
        mins.push(gmin);
        grows.push(is_grow);
        proof {
            assert(pws@[i as int] as int == child_pw(w as int, m.children[i as int]));
        }
        i += 1;
    }
    let ghost rem_spec: int = match m.element {
        Element::Container(c) => {
            let childw = if c.config.layout_direction is LeftToRight {
                sum_child_pw(m.children, w as int) + gap_sum(n as int, c.config.child_gap as int)
            } else {
                0
            };
            sat(w as int - childw - (c.config.padding.left + c.config.padding.right))
        },
        _ => 0,
    };
    let mut targets = pws;
    let ghost pws_snapshot = targets@;
    let ghost mut remf_spec: int = 0;
    match &element {
        Element::Container(c) => {
            let cfg = c.config;
            proof {
                assert(node_config_wf(m.element));
                assert(cfg.wf());
            }
            let mut sum: i128 = 0;
            let mut k: usize = 0;
            while k < n
                invariant
                    n == targets@.len(),
                    k <= n,
                    forall|q: int| 0 <= q < n ==> #[trigger] targets@[q] as int == pw_seq[q],
                    forall|q: int| 0 <= q < n ==> -COORD_MAX <= #[trigger] targets@[q] <= COORD_MAX,
                    n == pw_seq.len(),
                    sum == sum_i64s(targets@.take(k as int)),
                decreases n - k,
            {
                proof {
                    assert(targets@.take(k + 1 as int).drop_last() =~= targets@.take(k as int));
                    assert(targets@.take(k + 1 as int).last() == targets@[k as int]);
                    assert forall|q: int| 0 <= q < k implies -COORD_MAX <= #[trigger] targets@.take(
                        k as int,
                    )[q] <= COORD_MAX by {
                        assert(targets@.take(k as int)[q] == targets@[q]);
                    }
                    lemma_sum_i64s_bound(targets@.take(k as int));
                    lemma_scaled_bound(k as int);
                }
                sum = sum + targets[k] as i128;
                k += 1;
            }
            proof {
                assert(targets@.take(n as int) =~= targets@);
                lemma_sum_i64s_bound(targets@);
                lemma_scaled_bound(n as int);
                lemma_sum_cast(targets@, pw_seq);
                lemma_sum_child_pw(m.children, w as int, pw_seq);
                assert(sum == sum_ints(pw_seq));
                assert((n as i128) * (COORD_MAX as i128)
                    <= 0x2000_0000_0000_0000_0000_0000_0000_0000i128) by (nonlinear_arith)
                    requires
                        0 <= n as i128 <= 0x1_0000_0000_0000_0000i128,
                        COORD_MAX == 0x1000_0000_0000_0000i64,
                ;
            }
            let gap_total: i128 = if n <= 1 {
                0i128
            } else {
                proof {
                    assert(-(0x2000_0000_0000_0000_0000_0000_0000_0000i128) <= ((n - 1) as i128)
                        * (cfg.child_gap as i128)
                        <= 0x2000_0000_0000_0000_0000_0000_0000_0000i128) by (nonlinear_arith)
                        requires
                            2 <= n as i128 <= 0x1_0000_0000_0000_0000i128,
                            -(COORD_MAX as i128) <= cfg.child_gap as i128 <= (COORD_MAX as i128),
                            COORD_MAX == 0x1000_0000_0000_0000i64,
                    ;
                }
                ((n - 1) as i128) * (cfg.child_gap as i128)
            };
            let childw: i128 = match cfg.layout_direction {
                LayoutDirection::LeftToRight => sum + gap_total,
                LayoutDirection::TopToBottom => 0,
            };
            let rem = sat64((w as i128) - childw - (cfg.padding.left as i128) - (
            cfg.padding.right as i128));
            proof {
                assert(rem as int == rem_spec);
            }
            match cfg.layout_direction {
                LayoutDirection::LeftToRight => {
                    let remf = distribute(&mut targets, &maxes, &grows, rem);
                    proof {
                        remf_spec = remf as int;
                    }
                },
                LayoutDirection::TopToBottom => {
                    let mut k2: usize = 0;
                    while k2 < n
                        invariant
                            n == targets@.len(),
                            n == grows@.len(),
                            n == mins@.len(),
                            n == maxes@.len(),
                            n == pw_seq.len(),
                            n == grows_seq.len(),
                            n == m.children.len(),
                            k2 <= n,
                            -COORD_MAX <= rem <= COORD_MAX,
                            forall|q: int| 0 <= q < n ==> #[trigger] grows@[q] == grows_seq[q],
                            grows_seq == Seq::new(m.children.len(), |q: int| is_grow_w(m.children[q].element)),
                            forall|q: int| 0 <= q < n ==> #[trigger] mins@[q] as int == grow_min_w(
                                m.children[q].element,
                            ),
                            forall|q: int| 0 <= q < n ==> #[trigger] maxes@[q] as int == grow_max_w(
                                m.children[q].element,
                            ),
                            forall|q: int| 0 <= q < n ==> -COORD_MAX <= #[trigger] mins@[q] <= COORD_MAX,
                            forall|q: int| 0 <= q < n ==> -COORD_MAX <= #[trigger] maxes@[q] <= COORD_MAX,
                            forall|q: int|
                                k2 <= q < n ==> #[trigger] targets@[q] as int == pw_seq[q],
                            forall|q: int|
                                0 <= q < k2 ==> #[trigger] targets@[q] as int == (if grows_seq[q] {
                                    spec_clamp(
                                        rem as int,
                                        grow_min_w(m.children[q].element),
                                        grow_max_w(m.children[q].element),
                                    )
                                } else {
                                    pw_seq[q]
                                }),
                            forall|q: int|
                                0 <= q < n ==> -COORD_MAX <= #[trigger] targets@[q] <= COORD_MAX,
                        decreases n - k2,
                    {
                        if grows[k2] {
                            let mn = mins[k2];
                            let mx = maxes[k2];
                            let v = if rem < mn {
                                mn
                            } else if rem > mx {
                                mx
                            } else {
                                rem
                            };
                            let slot = &mut targets[k2];
                            *slot = v;
                        }
                        k2 += 1;
                    }
                },
            }
        },
        _ => {},
    }
    let ghost target_seq = Seq::new(targets@.len(), |q: int| targets@[q] as int);
    let mut kids = children;
    let mut out: Vec<ElementLayout> = Vec::new();
    let mut idx: usize = 0;
    while kids.len() > 0
        invariant
            configs_wf(m),
            bounded(m),
            orig == node.children@,
            m.children.len() == orig.len(),
            forall|j: int| 0 <= j < orig.len() ==> m.children[j] == orig[j]@,
            n == orig.len(),
            n == targets@.len(),
            idx == out@.len(),
            out@.len() + kids@.len() == orig.len(),
            kids@ =~= orig.skip(out@.len() as int),
            target_seq == Seq::new(targets@.len(), |q: int| targets@[q] as int),
            forall|q: int| 0 <= q < n ==> -COORD_MAX <= #[trigger] targets@[q] <= COORD_MAX,
            forall|j: int|
                0 <= j < out@.len() ==> grow_w_rel_at(
                    m.children[j],
                    target_seq[j],
                    (#[trigger] out@[j])@,
                ),
            forall|j: int|
                0 <= j < out@.len() ==> bounded((#[trigger] out@[j])@) && configs_wf(out@[j]@),
        decreases kids@.len(),
    {
        let ghost k = out@.len() as int;
        let c = kids.remove(0);
        proof {
            assert(c == orig[k]);
            assert(c@ == m.children[k]);
            assert(configs_wf(m.children[k]));
            assert(bounded(m.children[k]));
            assert(c == node.children@[k]);
            vstd::std_specs::vec::axiom_vec_index_decreases::<ElementLayout>(node.children, k);
            assert(decreases_to!(node => node.children));
            assert(decreases_to!(node => c));
        }
        let t = targets[idx];
        let rc = grow_width_at(c, t);
        out.push(rc);
        idx += 1;
        proof {
            assert(kids@ =~= orig.skip(out@.len() as int));
        }
    }
    let r = ElementLayout {
        position,
        dimensions: Dimension2D { width: w, height: dimensions.height },
        element,
        children: out,
    };
    proof {
        assert(r@.children.len() == m.children.len());
        assert forall|j: int| 0 <= j < m.children.len() implies grow_w_rel_at(
            m.children[j],
            target_seq[j],
            #[trigger] r@.children[j],
        ) by {
            assert(r@.children[j] == r.children@[j]@);
        }
        match m.element {
            Element::Container(c) => {
                if c.config.layout_direction is TopToBottom {
                    assert forall|j: int| 0 <= j < m.children.len() implies grow_w_rel_at(
                        m.children[j],
                        if is_grow_w(m.children[j].element) {
                            spec_clamp(
                                rem_spec,
                                grow_min_w(m.children[j].element),
                                grow_max_w(m.children[j].element),
                            )
                        } else {
                            pw_seq[j]
                        },
                        #[trigger] r@.children[j],
                    ) by {
                        assert(target_seq[j] == (if grows_seq[j] {
                            spec_clamp(
                                rem_spec,
                                grow_min_w(m.children[j].element),
                                grow_max_w(m.children[j].element),
                            )
                        } else {
                            pw_seq[j]
                        }));
                    }
                } else {
                    let ws = target_seq;
                    lemma_sum_cast(targets@, ws);
                    lemma_sum_cast(pws_snapshot, pw_seq);
                    lemma_sum_child_pw(m.children, w as int, pw_seq);
                    assert(grows@ =~= grows_seq);
                    lemma_count_grow_w_cast(m.children, grows_seq);
                    assert(count_true(grows@) == count_grow_w(m.children));
                    assert forall|q: int|
                        0 <= q < n && !is_grow_w(m.children[q].element) implies #[trigger] ws[q]
                        == child_pw(w as int, m.children[q]) by {
                        assert(!grows@[q]);
                        assert(targets@[q] == pws_snapshot[q]);
                        assert(pws_snapshot[q] as int == pw_seq[q]);
                    }
                    assert forall|q: int|
                        0 <= q < n && is_grow_w(m.children[q].element) implies min2(
                        child_pw(w as int, m.children[q]),
                        grow_max_w(m.children[q].element),
                    ) <= #[trigger] ws[q] <= max2(
                        child_pw(w as int, m.children[q]),
                        grow_max_w(m.children[q].element),
                    ) by {
                        assert(grows@[q]);
                        assert(pws_snapshot[q] as int == child_pw(w as int, m.children[q]));
                        assert(maxes@[q] as int == grow_max_w(m.children[q].element));
                    }
                    if rem_spec <= 0 {
                        assert(targets@ == pws_snapshot);
                        assert(remf_spec == rem_spec);
                        assert forall|q: int| 0 <= q < n implies #[trigger] ws[q] == child_pw(
                            w as int,
                            m.children[q],
                        ) by {
                            assert(targets@[q] == pws_snapshot[q]);
                        }
                    }
                    assert(sum_ints(ws) + remf_spec <= sum_child_pw(m.children, w as int)
                        + rem_spec);
                    if rem_spec > 0 {
                        assert(remf_spec == 0 || remf_spec < count_grow_w(m.children) || (forall|
                            q: int,
                        |
                            0 <= q < n && is_grow_w((#[trigger] m.children[q]).element) ==> ws[q]
                                == grow_max_w(m.children[q].element))) by {
                            if !(remf_spec == 0) && !(remf_spec < count_grow_w(m.children)) {
                                assert forall|q: int|
                                    0 <= q < n && is_grow_w(
                                        (#[trigger] m.children[q]).element,
                                    ) implies ws[q] == grow_max_w(m.children[q].element) by {
                                    assert(grows@[q]);
                                    assert(targets@[q] == maxes@[q]);
                                    assert(maxes@[q] as int == grow_max_w(m.children[q].element));
                                }
                            }
                        }
                    }
                    if rem_spec > 0 && count_grow_w(m.children) > 0 && grow_pw_uniform(
                        m.children,
                        w as int,
                    ) && grow_headroom_w(
                        m.children,
                        w as int,
                        rem_spec / count_grow_w(m.children),
                    ) {
                        assert(all_equal_grow(pws_snapshot, grows@)) by {
                            assert forall|q1: int, q2: int|
                                0 <= q1 < n && 0 <= q2 < n && grows@[q1] && grows@[q2] implies (
                            #[trigger] pws_snapshot[q1]) == (#[trigger] pws_snapshot[q2]) by {
                                assert(pws_snapshot[q1] as int == child_pw(
                                    w as int,
                                    m.children[q1],
                                ));
                                assert(pws_snapshot[q2] as int == child_pw(
                                    w as int,
                                    m.children[q2],
                                ));
                            }
                        }
                        assert(headroom_ok(
                            pws_snapshot,
                            grows@,
                            maxes@,
                            rem_spec / count_true(grows@),
                        )) by {
                            assert forall|q: int|
                                0 <= q < n && grows@[q] implies (#[trigger] maxes@[q]) as int
                                >= pws_snapshot[q] + rem_spec / count_true(grows@) by {
                                assert(is_grow_w(m.children[q].element));
                                assert(grow_max_w(m.children[q].element) >= child_pw(
                                    w as int,
                                    m.children[q],
                                ) + rem_spec / count_grow_w(m.children));
                            }
                        }
                        assert forall|q: int|
                            0 <= q < n && is_grow_w((#[trigger] m.children[q]).element) implies ws[q]
                            == child_pw(w as int, m.children[q]) + rem_spec / count_grow_w(
                            m.children,
                        ) by {
                            assert(grows@[q]);
                            assert(targets@[q] as int == pws_snapshot[q] + rem_spec
                                / count_true(grows@));
                        }
                        assert(remf_spec == rem_spec % count_grow_w(m.children));
                    }
                    assert(grow_w_outcome(m.children, w as int, rem_spec, ws, remf_spec));
                    let childw_l = if c.config.layout_direction is LeftToRight {
                        sum_child_pw(m.children, w as int) + gap_sum(
                            m.children.len() as int,
                            c.config.child_gap as int,
                        )
                    } else {
                        0
                    };
                    let rem_l = sat(
                        w as int - childw_l - (c.config.padding.left + c.config.padding.right),
                    );
                    assert(rem_l == rem_spec);
                    assert(grow_w_outcome(m.children, w as int, rem_l, ws, remf_spec));
                    assert forall|j: int| 0 <= j < m.children.len() implies grow_w_rel_at(
                        m.children[j],
                        ws[j],
                        #[trigger] r@.children[j],
                    ) by {
                        assert(ws[j] == target_seq[j]);
                    }
                    assert(grow_w_distributed(m, w as int, rem_l, r@));
                    assert(grow_w_rel_at(m, w as int, r@));
                }
            },
            _ => {
                assert forall|j: int| 0 <= j < m.children.len() implies grow_w_rel_at(
                    m.children[j],
                    child_pw(w as int, m.children[j]),
                    #[trigger] r@.children[j],
                ) by {
                    assert(target_seq[j] == pw_seq[j]);
                }
                assert(grow_w_rel_at(m, w as int, r@));
            },
        }
        assert(grow_w_rel_at(m, w as int, r@));
        assert forall|j: int| 0 <= j < r@.children.len() implies bounded(
            #[trigger] r@.children[j],
        ) && configs_wf(r@.children[j]) by {
            assert(r@.children[j] == r.children@[j]@);
        }
        assert(bounded(r@));
        assert(configs_wf(r@));
    }
    r
}

/// Runs the grow/percent width pass over the whole tree, top-down; the
/// root's own width is what it already has.
pub fn grow_width(node: ElementLayout) -> (r: ElementLayout)
    requires
        configs_wf(node@),
        bounded(node@),
    ensures
        grow_w_rel_at(node@, node@.width, r@),
        configs_wf(r@),
        bounded(r@),
{
    let w = node.dimensions().width;
    grow_width_at(node, w)
}

/// Whether an element is a container whose height policy is `Grow`.
pub open spec fn is_grow_h(e: Element) -> bool {
    match e {
        Element::Container(c) => c.config.sizing.height is Grow,
        _ => false,
    }
}

/// The height limit a growable element may be raised to.
pub open spec fn grow_max_h(e: Element) -> int {
    match e {
        Element::Container(c) => match c.config.sizing.height {
            SizingAxis::Grow(mm) => mm.max as int,
            _ => 0,
        },
        _ => 0,
    }
}

/// The height a growable element may not shrink below.
pub open spec fn grow_min_h(e: Element) -> int {
    match e {
        Element::Container(c) => match c.config.sizing.height {
            SizingAxis::Grow(mm) => mm.min as int,
            _ => 0,
        },
        _ => 0,
    }
}

/// The height a child enters the distribution with: a `Percent` child takes
/// its fraction of the parent height `w`, every other child keeps its own.
pub open spec fn child_ph(w: int, c: LayoutModel) -> int {
    match c.element {
        Element::Container(cc) => match cc.config.sizing.height {
            SizingAxis::Percent(p) => percent_of(w, p as int),
            _ => c.height,
        },
        _ => c.height,
    }
}

/// Sum of the heights a row of children enters the distribution with, given
/// the parent height `w`.
pub open spec fn sum_child_ph(cs: Seq<LayoutModel>, w: int) -> int
    decreases cs.len(),
{
    if cs.len() == 0 {
        0
    } else {
        sum_child_ph(cs.drop_last(), w) + child_ph(w, cs.last())
    }
}

proof fn lemma_sum_child_ph(cs: Seq<LayoutModel>, w: int, t: Seq<int>)
    requires
        t.len() == cs.len(),
        forall|i: int| 0 <= i < cs.len() ==> #[trigger] t[i] == child_ph(w, cs[i]),
    ensures
        sum_ints(t) == sum_child_ph(cs, w),
    decreases cs.len(),
{
    if cs.len() > 0 {
        assert forall|i: int| 0 <= i < cs.drop_last().len() implies #[trigger] t.drop_last()[i]
            == child_ph(w, cs.drop_last()[i]) by {
            assert(t.drop_last()[i] == t[i]);
            assert(cs.drop_last()[i] == cs[i]);
        }
        lemma_sum_child_ph(cs.drop_last(), w, t.drop_last());
    }
}

/// How many children of a row can grow in height.
pub open spec fn count_grow_h(cs: Seq<LayoutModel>) -> int
    decreases cs.len(),
{
    if cs.len() == 0 {
        0
    } else {
        count_grow_h(cs.drop_last()) + if is_grow_h(cs.last().element) {
            1int
        } else {
            0int
        }
    }
}

/// Every growable child enters the distribution with the same height.
pub open spec fn grow_ph_uniform(cs: Seq<LayoutModel>, w: int) -> bool {
    forall|i: int, j: int|
        0 <= i < cs.len() && 0 <= j < cs.len() && is_grow_h(cs[i].element) && is_grow_h(
            cs[j].element,
        ) ==> child_ph(w, #[trigger] cs[i]) == child_ph(w, #[trigger] cs[j])
}

/// Every growable child can take `share` more height within its limit.
pub open spec fn grow_headroom_h(cs: Seq<LayoutModel>, w: int, share: int) -> bool {
    forall|i: int|
        0 <= i < cs.len() && is_grow_h((#[trigger] cs[i]).element) ==> grow_max_h(cs[i].element)
            >= child_ph(w, cs[i]) + share
}

proof fn lemma_count_grow_h_cast(cs: Seq<LayoutModel>, flags: Seq<bool>)
    requires
        flags.len() == cs.len(),
        forall|i: int| 0 <= i < cs.len() ==> #[trigger] flags[i] == is_grow_h(cs[i].element),
    ensures
        count_true(flags) == count_grow_h(cs),
    decreases cs.len(),
{
    if cs.len() > 0 {
        assert forall|i: int| 0 <= i < cs.drop_last().len() implies #[trigger] flags.drop_last()[i]
            == is_grow_h(cs.drop_last()[i].element) by {
            assert(flags.drop_last()[i] == flags[i]);
            assert(cs.drop_last()[i] == cs[i]);
        }
        lemma_count_grow_h_cast(cs.drop_last(), flags.drop_last());
    }
}

/// The height mirror of the row outcome: what the main-axis distribution
/// of a column may leave behind, clause for clause as for widths.
pub open spec fn grow_h_outcome(
    cs: Seq<LayoutModel>,
    w: int,
    rem: int,
    ws: Seq<int>,
    remf: int,
) -> bool {
    &&& ws.len() == cs.len()
    &&& (forall|i: int|
        0 <= i < cs.len() && !is_grow_h(cs[i].element) ==> #[trigger] ws[i] == child_ph(w, cs[i]))
    &&& (forall|i: int|
        0 <= i < cs.len() && is_grow_h(cs[i].element) ==> min2(
            child_ph(w, cs[i]),
            grow_max_h(cs[i].element),
        ) <= #[trigger] ws[i] <= max2(child_ph(w, cs[i]), grow_max_h(cs[i].element)))
    &&& (rem <= 0 ==> remf == rem && forall|i: int|
        0 <= i < cs.len() ==> #[trigger] ws[i] == child_ph(w, cs[i]))
    &&& (rem > 0 ==> remf >= 0)
    &&& sum_ints(ws) + remf <= sum_child_ph(cs, w) + rem
    &&& (rem > 0 ==> remf == 0 || remf < count_grow_h(cs) || (forall|i: int|
        0 <= i < cs.len() && is_grow_h((#[trigger] cs[i]).element) ==> ws[i] == grow_max_h(
            cs[i].element,
        )))
    &&& ((rem > 0 && count_grow_h(cs) > 0 && grow_ph_uniform(cs, w) && grow_headroom_h(
        cs,
        w,
        rem / count_grow_h(cs),
    )) ==> (forall|i: int|
        0 <= i < cs.len() && is_grow_h((#[trigger] cs[i]).element) ==> ws[i] == child_ph(w, cs[i])
            + rem / count_grow_h(cs)) && remf == rem % count_grow_h(cs))
}

/// The children of a column after its free height was spread: some
/// assignment the distribution allows, each child then processed with it.
pub open spec fn grow_h_distributed(b: LayoutModel, w: int, rem: int, a: LayoutModel) -> bool
    decreases b, 0int,
{
    exists|ws: Seq<int>, remf: int|
        {
            &&& #[trigger] grow_h_outcome(b.children, w, rem, ws, remf)
            &&& (forall|i: int|
                0 <= i < b.children.len() ==> grow_h_rel_at(
                    b.children[i],
                    ws[i],
                    #[trigger] a.children[i],
                ))
        }
}

/// Fourth sizing stage, the vertical mirror of the second: described
/// relative to a parent-imposed height `w` for the node itself; every
/// `Percent` child takes its fraction of `w`, and the space of `w` left
/// after the children and the padding is handed to the `Grow` children.
pub open spec fn grow_h_rel_at(b: LayoutModel, w: int, a: LayoutModel) -> bool
    decreases b, 1int,
{
    &&& a.x == b.x
    &&& a.y == b.y
    &&& a.width == b.width
    &&& a.element == b.element
    &&& a.height == w
    &&& a.children.len() == b.children.len()
    &&& match b.element {
        Element::Container(c) => {
            let cfg = c.config;
            let n = b.children.len() as int;
            let childh = if cfg.layout_direction is TopToBottom {
                sum_child_ph(b.children, w) + gap_sum(n, cfg.child_gap as int)
            } else {
                0
            };
            let rem = sat(w - childh - (cfg.padding.top + cfg.padding.bottom));
            if cfg.layout_direction is LeftToRight {
                forall|i: int|
                    0 <= i < n ==> grow_h_rel_at(
                        b.children[i],
                        if is_grow_h(b.children[i].element) {
                            spec_clamp(
                                rem,
                                grow_min_h(b.children[i].element),
                                grow_max_h(b.children[i].element),
                            )
                        } else {
                            child_ph(w, b.children[i])
                        },
                        #[trigger] a.children[i],
                    )
            } else {
                grow_h_distributed(b, w, rem, a)
            }
        },
        _ => forall|i: int|
            0 <= i < b.children.len() ==> grow_h_rel_at(
                b.children[i],
                child_ph(w, b.children[i]),
                #[trigger] a.children[i],
            ),
    }
}

/// Runs the grow/percent height pass on a node whose own height has been
/// decided to be `w` by its parent, then on each child with the height this
/// pass hands it.
fn grow_height_at(node: ElementLayout, w: i64) -> (r: ElementLayout)
    requires
        configs_wf(node@),
        bounded(node@),
        -COORD_MAX <= w <= COORD_MAX,
    ensures
        grow_h_rel_at(node@, w as int, r@),
        configs_wf(r@),
        bounded(r@),
    decreases node,
{
    let ghost m = node@;
    let ElementLayout { position, dimensions, element, children } = node;
    let ghost orig = children@;
    proof {
        assert(children == node.children);
        assert(orig == node.children@);
        assert(m.children.len() == orig.len());
        assert forall|j: int| 0 <= j < orig.len() implies m.children[j] == orig[j]@ by {}
    }
    let n = children.len();
    let ghost pw_seq = Seq::new(m.children.len(), |i: int| child_ph(w as int, m.children[i]));
    let ghost maxes_seq = Seq::new(m.children.len(), |i: int| grow_max_h(m.children[i].element));
    let ghost mins_seq = Seq::new(m.children.len(), |i: int| grow_min_h(m.children[i].element));
    let ghost grows_seq = Seq::new(m.children.len(), |i: int| is_grow_h(m.children[i].element));
    let mut pws: Vec<i64> = Vec::new();
    let mut maxes: Vec<i64> = Vec::new();
    let mut mins: Vec<i64> = Vec::new();
    let mut grows: Vec<bool> = Vec::new();
    let mut i: usize = 0;
    while i < n
        invariant
            -COORD_MAX <= w <= COORD_MAX,
            n == children@.len(),
            n == m.children.len(),
            configs_wf(m),
            bounded(m),
            forall|j: int| 0 <= j < n ==> m.children[j] == children@[j]@,
            pw_seq == Seq::new(m.children.len(), |q: int| child_ph(w as int, m.children[q])),
            maxes_seq == Seq::new(m.children.len(), |q: int| grow_max_h(m.children[q].element)),
            mins_seq == Seq::new(m.children.len(), |q: int| grow_min_h(m.children[q].element)),
            grows_seq == Seq::new(m.children.len(), |q: int| is_grow_h(m.children[q].element)),
            i <= n,
            pws@.len() == i,
            maxes@.len() == i,
            mins@.len() == i,
            grows@.len() == i,
            forall|q: int| 0 <= q < i ==> #[trigger] pws@[q] as int == pw_seq[q],
            forall|q: int| 0 <= q < i ==> #[trigger] maxes@[q] as int == maxes_seq[q],
            forall|q: int| 0 <= q < i ==> #[trigger] mins@[q] as int == mins_seq[q],
            forall|q: int| 0 <= q < i ==> #[trigger] grows@[q] == grows_seq[q],
            forall|q: int| 0 <= q < i ==> -COORD_MAX <= #[trigger] pws@[q] <= COORD_MAX,
            forall|q: int| 0 <= q < i ==> -COORD_MAX <= #[trigger] maxes@[q] <= COORD_MAX,
            forall|q: int| 0 <= q < i ==> -COORD_MAX <= #[trigger] mins@[q] <= COORD_MAX,
        decreases n - i,
    {
        let c = &children[i];
        proof {
            assert(c@ == m.children[i as int]);
            assert(configs_wf(m.children[i as int]));
            assert(bounded(m.children[i as int]));
        }
        let mut is_grow = false;
        let mut gmax: i64 = 0;
        let mut gmin: i64 = 0;
        let mut pw: i64 = c.dimensions.height;
        match &c.element {
            Element::Container(cc) => {
                match cc.config.sizing.height {
                    SizingAxis::Percent(p) => {
                        proof {
                            assert(node_config_wf(m.children[i as int].element));
                        }
                        pw = percent_mul(w, p);
                    },
                    SizingAxis::Grow(mm) => {
                        is_grow = true;
                        gmax = mm.max;
                        gmin = mm.min;
                        proof {
                            assert(node_config_wf(m.children[i as int].element));
                            assert(-DIM_MAX <= mm.min <= mm.max <= DIM_MAX);
                        }
                    },
                    _ => {},
                }
            },
            _ => {},
        }
        pws.push(pw);
        maxes.push(gmax);
        mins.push(gmin);
        grows.push(is_grow);
        proof {
            assert(pws@[i as int] as int == child_ph(w as int, m.children[i as int]));
        }
        i += 1;
    }
    let ghost rem_spec: int = match m.element {
        Element::Container(c) => {
            let childh = if c.config.layout_direction is TopToBottom {
                sum_child_ph(m.children, w as int) + gap_sum(n as int, c.config.child_gap as int)
            } else {
                0
            };
            sat(w as int - childh - (c.config.padding.top + c.config.padding.bottom))
        },
        _ => 0,
    };
    let mut targets = pws;
    let ghost pws_snapshot = targets@;
    let ghost mut remf_spec: int = 0;
    match &element {
        Element::Container(c) => {
            let cfg = c.config;
            proof {
                assert(node_config_wf(m.element));
                assert(cfg.wf());
            }
            let mut sum: i128 = 0;
            let mut k: usize = 0;
            while k < n
                invariant
                    n == targets@.len(),
                    k <= n,
                    forall|q: int| 0 <= q < n ==> #[trigger] targets@[q] as int == pw_seq[q],
                    forall|q: int| 0 <= q < n ==> -COORD_MAX <= #[trigger] targets@[q] <= COORD_MAX,
                    n == pw_seq.len(),
                    sum == sum_i64s(targets@.take(k as int)),
                decreases n - k,
            {
                proof {
                    assert(targets@.take(k + 1 as int).drop_last() =~= targets@.take(k as int));
                    assert(targets@.take(k + 1 as int).last() == targets@[k as int]);
                    assert forall|q: int| 0 <= q < k implies -COORD_MAX <= #[trigger] targets@.take(
                        k as int,
                    )[q] <= COORD_MAX by {
                        assert(targets@.take(k as int)[q] == targets@[q]);
                    }
                    lemma_sum_i64s_bound(targets@.take(k as int));
                    lemma_scaled_bound(k as int);
                }
                sum = sum + targets[k] as i128;
                k += 1;
            }
            proof {
                assert(targets@.take(n as int) =~= targets@);
                lemma_sum_i64s_bound(targets@);
                lemma_scaled_bound(n as int);
                lemma_sum_cast(targets@, pw_seq);
                lemma_sum_child_ph(m.children, w as int, pw_seq);
                assert(sum == sum_ints(pw_seq));
                assert((n as i128) * (COORD_MAX as i128)
                    <= 0x2000_0000_0000_0000_0000_0000_0000_0000i128) by (nonlinear_arith)
                    requires
                        0 <= n as i128 <= 0x1_0000_0000_0000_0000i128,
                        COORD_MAX == 0x1000_0000_0000_0000i64,
                ;
            }
            let gap_total: i128 = if n <= 1 {
                0i128
            } else {
                proof {
                    assert(-(0x2000_0000_0000_0000_0000_0000_0000_0000i128) <= ((n - 1) as i128)
                        * (cfg.child_gap as i128)
                        <= 0x2000_0000_0000_0000_0000_0000_0000_0000i128) by (nonlinear_arith)
                        requires
                            2 <= n as i128 <= 0x1_0000_0000_0000_0000i128,
                            -(COORD_MAX as i128) <= cfg.child_gap as i128 <= (COORD_MAX as i128),
                            COORD_MAX == 0x1000_0000_0000_0000i64,
                    ;
                }
                ((n - 1) as i128) * (cfg.child_gap as i128)
            };
            let childh: i128 = match cfg.layout_direction {
                LayoutDirection::TopToBottom => sum + gap_total,
                LayoutDirection::LeftToRight => 0,
            };
            let rem = sat64((w as i128) - childh - (cfg.padding.top as i128) - (
            cfg.padding.bottom as i128));
            proof {
                assert(rem as int == rem_spec);
            }
            match cfg.layout_direction {
                LayoutDirection::TopToBottom => {
                    let remf = distribute(&mut targets, &maxes, &grows, rem);
                    proof {
                        remf_spec = remf as int;
                    }
                },
                LayoutDirection::LeftToRight => {
                    let mut k2: usize = 0;
                    while k2 < n
                        invariant
                            n == targets@.len(),
                            n == grows@.len(),
                            n == mins@.len(),
                            n == maxes@.len(),
                            n == pw_seq.len(),
                            n == grows_seq.len(),
                            n == m.children.len(),
                            k2 <= n,
                            -COORD_MAX <= rem <= COORD_MAX,
                            forall|q: int| 0 <= q < n ==> #[trigger] grows@[q] == grows_seq[q],
                            grows_seq == Seq::new(m.children.len(), |q: int| is_grow_h(m.children[q].element)),
                            forall|q: int| 0 <= q < n ==> #[trigger] mins@[q] as int == grow_min_h(
                                m.children[q].element,
                            ),
                            forall|q: int| 0 <= q < n ==> #[trigger] maxes@[q] as int == grow_max_h(
                                m.children[q].element,
                            ),
                            forall|q: int| 0 <= q < n ==> -COORD_MAX <= #[trigger] mins@[q] <= COORD_MAX,
                            forall|q: int| 0 <= q < n ==> -COORD_MAX <= #[trigger] maxes@[q] <= COORD_MAX,
                            forall|q: int|
                                k2 <= q < n ==> #[trigger] targets@[q] as int == pw_seq[q],
                            forall|q: int|
                                0 <= q < k2 ==> #[trigger] targets@[q] as int == (if grows_seq[q] {
                                    spec_clamp(
                                        rem as int,
                                        grow_min_h(m.children[q].element),
                                        grow_max_h(m.children[q].element),
                                    )
                                } else {
                                    pw_seq[q]
                                }),
                            forall|q: int|
                                0 <= q < n ==> -COORD_MAX <= #[trigger] targets@[q] <= COORD_MAX,
                        decreases n - k2,
                    {
                        if grows[k2] {
                            let mn = mins[k2];
                            let mx = maxes[k2];
                            let v = if rem < mn {
                                mn
                            } else if rem > mx {
                                mx
                            } else {
                                rem
                            };
                            let slot = &mut targets[k2];
                            *slot = v;
                        }
                        k2 += 1;
                    }
                },
            }
        },
        _ => {},
    }
    let ghost target_seq = Seq::new(targets@.len(), |q: int| targets@[q] as int);
    let mut kids = children;
    let mut out: Vec<ElementLayout> = Vec::new();
    let mut idx: usize = 0;
    while kids.len() > 0
        invariant
            configs_wf(m),
            bounded(m),
            orig == node.children@,
            m.children.len() == orig.len(),
            forall|j: int| 0 <= j < orig.len() ==> m.children[j] == orig[j]@,
            n == orig.len(),
            n == targets@.len(),
            idx == out@.len(),
            out@.len() + kids@.len() == orig.len(),
            kids@ =~= orig.skip(out@.len() as int),
            target_seq == Seq::new(targets@.len(), |q: int| targets@[q] as int),
            forall|q: int| 0 <= q < n ==> -COORD_MAX <= #[trigger] targets@[q] <= COORD_MAX,
            forall|j: int|
                0 <= j < out@.len() ==> grow_h_rel_at(
                    m.children[j],
                    target_seq[j],
                    (#[trigger] out@[j])@,
                ),
            forall|j: int|
                0 <= j < out@.len() ==> bounded((#[trigger] out@[j])@) && configs_wf(out@[j]@),
        decreases kids@.len(),
    {
        let ghost k = out@.len() as int;
        let c = kids.remove(0);
        proof {
            assert(c == orig[k]);
            assert(c@ == m.children[k]);
            assert(configs_wf(m.children[k]));
            assert(bounded(m.children[k]));
            assert(c == node.children@[k]);
            vstd::std_specs::vec::axiom_vec_index_decreases::<ElementLayout>(node.children, k);
            assert(decreases_to!(node => node.children));
            assert(decreases_to!(node => c));
        }
        let t = targets[idx];
        let rc = grow_height_at(c, t);
        out.push(rc);
        idx += 1;
        proof {
            assert(kids@ =~= orig.skip(out@.len() as int));
        }
    }
    let r = ElementLayout {
        position,
        dimensions: Dimension2D { width: dimensions.width, height: w },
        element,
        children: out,
    };
    proof {
        assert(r@.children.len() == m.children.len());
        assert forall|j: int| 0 <= j < m.children.len() implies grow_h_rel_at(
            m.children[j],
            target_seq[j],
            #[trigger] r@.children[j],
        ) by {
            assert(r@.children[j] == r.children@[j]@);
        }
        match m.element {
            Element::Container(c) => {
                if c.config.layout_direction is LeftToRight {
                    assert forall|j: int| 0 <= j < m.children.len() implies grow_h_rel_at(
                        m.children[j],
                        if is_grow_h(m.children[j].element) {
                            spec_clamp(
                                rem_spec,
                                grow_min_h(m.children[j].element),
                                grow_max_h(m.children[j].element),
                            )
                        } else {
                            pw_seq[j]
                        },
                        #[trigger] r@.children[j],
                    ) by {
                        assert(target_seq[j] == (if grows_seq[j] {
                            spec_clamp(
                                rem_spec,
                                grow_min_h(m.children[j].element),
                                grow_max_h(m.children[j].element),
                            )
                        } else {
                            pw_seq[j]
                        }));
                    }
                } else {
                    let ws = target_seq;
                    lemma_sum_cast(targets@, ws);
                    lemma_sum_cast(pws_snapshot, pw_seq);
                    lemma_sum_child_ph(m.children, w as int, pw_seq);
                    assert(grows@ =~= grows_seq);
                    lemma_count_grow_h_cast(m.children, grows_seq);
                    assert(count_true(grows@) == count_grow_h(m.children));
                    assert forall|q: int|
                        0 <= q < n && !is_grow_h(m.children[q].element) implies #[trigger] ws[q]
                        == child_ph(w as int, m.children[q]) by {
                        assert(!grows@[q]);
                        assert(targets@[q] == pws_snapshot[q]);
                        assert(pws_snapshot[q] as int == pw_seq[q]);
                    }
                    assert forall|q: int|
                        0 <= q < n && is_grow_h(m.children[q].element) implies min2(
                        child_ph(w as int, m.children[q]),
                        grow_max_h(m.children[q].element),
                    ) <= #[trigger] ws[q] <= max2(
                        child_ph(w as int, m.children[q]),
                        grow_max_h(m.children[q].element),
                    ) by {
                        assert(grows@[q]);
                        assert(pws_snapshot[q] as int == child_ph(w as int, m.children[q]));
                        assert(maxes@[q] as int == grow_max_h(m.children[q].element));
                    }
                    if rem_spec <= 0 {
                        assert(targets@ == pws_snapshot);
                        assert(remf_spec == rem_spec);
                        assert forall|q: int| 0 <= q < n implies #[trigger] ws[q] == child_ph(
                            w as int,
                            m.children[q],
                        ) by {
                            assert(targets@[q] == pws_snapshot[q]);
                        }
                    }
                    assert(sum_ints(ws) + remf_spec <= sum_child_ph(m.children, w as int)
                        + rem_spec);
                    if rem_spec > 0 {
                        assert(remf_spec == 0 || remf_spec < count_grow_h(m.children) || (forall|
                            q: int,
                        |
                            0 <= q < n && is_grow_h((#[trigger] m.children[q]).element) ==> ws[q]
                                == grow_max_h(m.children[q].element))) by {
                            if !(remf_spec == 0) && !(remf_spec < count_grow_h(m.children)) {
                                assert forall|q: int|
                                    0 <= q < n && is_grow_h(
                                        (#[trigger] m.children[q]).element,
                                    ) implies ws[q] == grow_max_h(m.children[q].element) by {
                                    assert(grows@[q]);
                                    assert(targets@[q] == maxes@[q]);
                                    assert(maxes@[q] as int == grow_max_h(m.children[q].element));
                                }
                            }
                        }
                    }
                    if rem_spec > 0 && count_grow_h(m.children) > 0 && grow_ph_uniform(
                        m.children,
                        w as int,
                    ) && grow_headroom_h(
                        m.children,
                        w as int,
                        rem_spec / count_grow_h(m.children),
                    ) {
                        assert(all_equal_grow(pws_snapshot, grows@)) by {
                            assert forall|q1: int, q2: int|
                                0 <= q1 < n && 0 <= q2 < n && grows@[q1] && grows@[q2] implies (
                            #[trigger] pws_snapshot[q1]) == (#[trigger] pws_snapshot[q2]) by {
                                assert(pws_snapshot[q1] as int == child_ph(
                                    w as int,
                                    m.children[q1],
                                ));
                                assert(pws_snapshot[q2] as int == child_ph(
                                    w as int,
                                    m.children[q2],
                                ));
                            }
                        }
                        assert(headroom_ok(
                            pws_snapshot,
                            grows@,
                            maxes@,
                            rem_spec / count_true(grows@),
                        )) by {
                            assert forall|q: int|
                                0 <= q < n && grows@[q] implies (#[trigger] maxes@[q]) as int
                                >= pws_snapshot[q] + rem_spec / count_true(grows@) by {
                                assert(is_grow_h(m.children[q].element));
                                assert(grow_max_h(m.children[q].element) >= child_ph(
                                    w as int,
                                    m.children[q],
                                ) + rem_spec / count_grow_h(m.children));
                            }
                        }
                        assert forall|q: int|
                            0 <= q < n && is_grow_h((#[trigger] m.children[q]).element) implies ws[q]
                            == child_ph(w as int, m.children[q]) + rem_spec / count_grow_h(
                            m.children,
                        ) by {
                            assert(grows@[q]);
                            assert(targets@[q] as int == pws_snapshot[q] + rem_spec
                                / count_true(grows@));
                        }
                        assert(remf_spec == rem_spec % count_grow_h(m.children));
                    }
                    assert(grow_h_outcome(m.children, w as int, rem_spec, ws, remf_spec));
                    let childw_l = if c.config.layout_direction is TopToBottom {
                        sum_child_ph(m.children, w as int) + gap_sum(
                            m.children.len() as int,
                            c.config.child_gap as int,
                        )
                    } else {
                        0
                    };
                    let rem_l = sat(
                        w as int - childw_l - (c.config.padding.top + c.config.padding.bottom),
                    );
                    assert(rem_l == rem_spec);
                    assert(grow_h_outcome(m.children, w as int, rem_l, ws, remf_spec));
                    assert forall|j: int| 0 <= j < m.children.len() implies grow_h_rel_at(
                        m.children[j],
                        ws[j],
                        #[trigger] r@.children[j],
                    ) by {
                        assert(ws[j] == target_seq[j]);
                    }
                    assert(grow_h_distributed(m, w as int, rem_l, r@));
                    assert(grow_h_rel_at(m, w as int, r@));
                }
            },
            _ => {
                assert forall|j: int| 0 <= j < m.children.len() implies grow_h_rel_at(
                    m.children[j],
                    child_ph(w as int, m.children[j]),
                    #[trigger] r@.children[j],
                ) by {
                    assert(target_seq[j] == pw_seq[j]);
                }
            },
        }
        assert(grow_h_rel_at(m, w as int, r@));
        assert forall|j: int| 0 <= j < r@.children.len() implies bounded(
            #[trigger] r@.children[j],
        ) && configs_wf(r@.children[j]) by {
            assert(r@.children[j] == r.children@[j]@);
        }
        assert(bounded(r@));
        assert(configs_wf(r@));
    }
    r
}

/// Runs the grow/percent height pass over the whole tree, top-down; the
/// root's own height is what it already has.
pub fn grow_height(node: ElementLayout) -> (r: ElementLayout)
    requires
        configs_wf(node@),
        bounded(node@),
    ensures
        grow_h_rel_at(node@, node@.height, r@),
        configs_wf(r@),
        bounded(r@),
{
    let w = node.dimensions().height;
    grow_height_at(node, w)
}

/// Halving towards zero.
pub open spec fn div2t(x: int) -> int {
    if x >= 0 {
        x / 2
    } else {
        -((-x) / 2)
    }
}

fn div2t128(v: i128) -> (r: i128)
    requires
        v >= -0x7fff_ffff_ffff_ffff_ffff_ffff_ffff_ffffi128,
    ensures
        r as int == div2t(v as int),
        v >= 0 ==> 0 <= r <= v,
        v < 0 ==> v <= r <= 0,
{
    if v >= 0 {
        proof {
            vstd::arithmetic::div_mod::lemma_div_nonincreasing(v as int, 2);
            vstd::arithmetic::div_mod::lemma_div_pos_is_pos(v as int, 2);
        }
        ((v as u128) / 2) as i128
    } else {
        proof {
            vstd::arithmetic::div_mod::lemma_div_nonincreasing(-(v as int), 2);
            vstd::arithmetic::div_mod::lemma_div_pos_is_pos(-(v as int), 2);
        }
        -((((-v) as u128) / 2) as i128)
    }
}

/// Accumulated main-axis offset before child `k` of a row: the widths of
/// the earlier siblings, each followed by one gap.
pub open spec fn off_main_w(cs: Seq<LayoutModel>, k: int, gap: int) -> int
    decreases k,
{
    if k <= 0 {
        0
    } else {
        off_main_w(cs, k - 1, gap) + cs[k - 1].width + gap
    }
}

/// Accumulated main-axis offset before child `k` of a column.
pub open spec fn off_main_h(cs: Seq<LayoutModel>, k: int, gap: int) -> int
    decreases k,
{
    if k <= 0 {
        0
    } else {
        off_main_h(cs, k - 1, gap) + cs[k - 1].height + gap
    }
}

proof fn lemma_off_main_w_bound(cs: Seq<LayoutModel>, k: int, gap: int)
    requires
        0 <= k <= cs.len(),
        forall|i: int| 0 <= i < cs.len() ==> bounded(#[trigger] cs[i]),
        -COORD_MAX <= gap <= COORD_MAX,
    ensures
        -(k * 2 * (COORD_MAX as int)) <= off_main_w(cs, k, gap) <= k * 2 * (COORD_MAX as int),
    decreases k,
{
    if k > 0 {
        lemma_off_main_w_bound(cs, k - 1, gap);
        assert(k * 2 * (COORD_MAX as int) == (k - 1) * 2 * (COORD_MAX as int) + 2 * (
        COORD_MAX as int)) by (nonlinear_arith);
    }
}

proof fn lemma_off_main_h_bound(cs: Seq<LayoutModel>, k: int, gap: int)
    requires
        0 <= k <= cs.len(),
        forall|i: int| 0 <= i < cs.len() ==> bounded(#[trigger] cs[i]),
        -COORD_MAX <= gap <= COORD_MAX,
    ensures
        -(k * 2 * (COORD_MAX as int)) <= off_main_h(cs, k, gap) <= k * 2 * (COORD_MAX as int),
    decreases k,
{
    if k > 0 {
        lemma_off_main_h_bound(cs, k - 1, gap);
        assert(k * 2 * (COORD_MAX as int) == (k - 1) * 2 * (COORD_MAX as int) + 2 * (
        COORD_MAX as int)) by (nonlinear_arith);
    }
}

/// The horizontal offset a container's first child starts at, given the
/// total extent its children will cover.
pub open spec fn base_off_x(cfg: crate::container::ContainerConfig, width: int, total_w: int) -> int {
    let lead_x = if cfg.layout_direction is LeftToRight {
        cfg.spec_padding_in_axis() as int
    } else {
        cfg.spec_padding_in_other_axis() as int
    };
    match cfg.align.x {
        crate::config::Alignment::End => width - total_w - lead_x,
        crate::config::Alignment::Center => lead_x + div2t(width - total_w),
        _ => lead_x,
    }
}

/// The vertical offset a container's first child starts at.
pub open spec fn base_off_y(cfg: crate::container::ContainerConfig, height: int, total_h: int) -> int {
    let lead_y = if cfg.layout_direction is LeftToRight {
        cfg.spec_padding_in_other_axis() as int
    } else {
        cfg.spec_padding_in_axis() as int
    };
    match cfg.align.y {
        crate::config::Alignment::End => height - total_h - lead_y,
        crate::config::Alignment::Center => lead_y + div2t(height - total_h),
        _ => lead_y,
    }
}

/// Fifth stage: top-down, with the node itself put at `(x, y)`. Each child
/// is placed at the parent's position plus the accumulated offset along the
/// layout axis and the aligned offset across it; `EndReverse` alignment
/// lays children from the trailing edge back inward.
pub open spec fn spec_positions_at(b: LayoutModel, x: int, y: int) -> LayoutModel
    decreases b,
{
    match b.element {
        Element::Container(c) => {
            let cfg = c.config;
            let n = b.children.len() as int;
            let gap = cfg.child_gap as int;
            let total_w = if cfg.layout_direction is LeftToRight {
                sum_w(b.children) + gap_sum(n, gap)
            } else {
                max_w(b.children)
            };
            let total_h = if cfg.layout_direction is TopToBottom {
                sum_h(b.children) + gap_sum(n, gap)
            } else {
                max_h(b.children)
            };
            let bx = base_off_x(cfg, b.width, total_w);
            let by = base_off_y(cfg, b.height, total_h);
            LayoutModel {
                x,
                y,
                width: b.width,
                height: b.height,
                element: b.element,
                children: Seq::new(
                    b.children.len(),
                    |k: int|
                        if 0 <= k < b.children.len() {
                            let offx = if cfg.layout_direction is LeftToRight {
                                bx + off_main_w(b.children, k, gap)
                            } else {
                                bx
                            };
                            let offy = if cfg.layout_direction is TopToBottom {
                                by + off_main_h(b.children, k, gap)
                            } else {
                                by
                            };
                            let cx = if cfg.align.x is EndReverse {
                                sat(b.children[k].x + x - offx + b.width - b.children[k].width)
                            } else {
                                sat(b.children[k].x + x + offx)
                            };
                            let cy = if cfg.align.y is EndReverse {
                                sat(b.children[k].y + y - offy + b.height - b.children[k].height)
                            } else {
                                sat(b.children[k].y + y + offy)
                            };
                            spec_positions_at(b.children[k], cx, cy)
                        } else {
                            arbitrary()
                        },
                ),
            }
        },
        _ => LayoutModel {
            x,
            y,
            width: b.width,
            height: b.height,
            element: b.element,
            children: Seq::new(
                b.children.len(),
                |k: int|
                    if 0 <= k < b.children.len() {
                        spec_positions_at(b.children[k], b.children[k].x, b.children[k].y)
                    } else {
                        arbitrary()
                    },
            ),
        },
    }
}

/// Places the whole subtree, with the node itself at `(x, y)`.
#[verifier::rlimit(60)]
fn positions_at(node: ElementLayout, x: i64, y: i64) -> (r: ElementLayout)
    requires
        configs_wf(node@),
        bounded(node@),
        -COORD_MAX <= x <= COORD_MAX,
        -COORD_MAX <= y <= COORD_MAX,
    ensures
        r@ == spec_positions_at(node@, x as int, y as int),
        configs_wf(r@),
        bounded(r@),
    decreases node,
{
    let ghost m = node@;
    let ElementLayout { position, dimensions, element, children } = node;
    let ghost orig = children@;
    proof {
        assert(children == node.children);
        assert(orig == node.children@);
        assert(m.children.len() == orig.len());
        assert forall|j: int| 0 <= j < orig.len() implies m.children[j] == orig[j]@ by {}
    }
    let n = children.len();
    let is_cont = match &element {
        Element::Container(_) => true,
        _ => false,
    };
    let mut acc_x: i128 = 0;
    let mut acc_y: i128 = 0;
    let ghost mut bx_spec: int = 0;
    let ghost mut by_spec: int = 0;
    let mut dir = LayoutDirection::LeftToRight;
    let mut gap: i64 = 0;
    let mut align_x = crate::config::Alignment::Start;
    let mut align_y = crate::config::Alignment::Start;
    if let Element::Container(c) = &element {
        let cfg = c.config;
        proof {
            assert(node_config_wf(m.element));
            assert(cfg.wf());
        }
        dir = cfg.layout_direction;
        gap = cfg.child_gap;
        align_x = cfg.align.x;
        align_y = cfg.align.y;
        let mut sw: i128 = 0;
        let mut sh: i128 = 0;
        let mut mxw: i64 = 0;
        let mut mxh: i64 = 0;
        let mut k: usize = 0;
        while k < n
            invariant
                n == children@.len(),
                n == m.children.len(),
                forall|j: int| 0 <= j < n ==> m.children[j] == children@[j]@,
                forall|j: int| 0 <= j < n ==> bounded(#[trigger] m.children[j]),
                k <= n,
                sw == sum_w(m.children.take(k as int)),
                sh == sum_h(m.children.take(k as int)),
                mxw as int == max_w(m.children.take(k as int)),
                mxh as int == max_h(m.children.take(k as int)),
            decreases n - k,
        {
            proof {
                assert(m.children.take(k + 1 as int).drop_last() =~= m.children.take(k as int));
                assert(m.children.take(k + 1 as int).last() == m.children[k as int]);
                assert forall|q: int| 0 <= q < k implies -COORD_MAX <= (#[trigger] m.children.take(
                    k as int,
                )[q]).width <= COORD_MAX by {
                    assert(m.children.take(k as int)[q] == m.children[q]);
                }
                assert forall|q: int| 0 <= q < k implies -COORD_MAX <= (#[trigger] m.children.take(
                    k as int,
                )[q]).height <= COORD_MAX by {
                    assert(m.children.take(k as int)[q] == m.children[q]);
                }
                lemma_sum_w_bound(m.children.take(k as int));
                lemma_sum_h_bound(m.children.take(k as int));
                lemma_scaled_bound(k as int);
                assert((children@[k as int])@ == m.children[k as int]);
            }
            let cw = children[k].dimensions.width;
            let ch = children[k].dimensions.height;
            sw = sw + cw as i128;
            sh = sh + ch as i128;
            if k == 0 || cw > mxw {
                mxw = cw;
            }
            if k == 0 || ch > mxh {
                mxh = ch;
            }
            k += 1;
        }
        proof {
            assert(m.children.take(n as int) =~= m.children);
            assert forall|q: int| 0 <= q < n implies -COORD_MAX <= (#[trigger] m.children[q]).width
                <= COORD_MAX by {}
            assert forall|q: int| 0 <= q < n implies -COORD_MAX
                <= (#[trigger] m.children[q]).height <= COORD_MAX by {}
            lemma_sum_w_bound(m.children);
            lemma_sum_h_bound(m.children);
            lemma_scaled_bound(n as int);
        }
        let gap_total: i128 = if n <= 1 {
            0i128
        } else {
            proof {
                assert(-(0x2000_0000_0000_0000_0000_0000_0000_0000i128) <= ((n - 1) as i128) * (
                cfg.child_gap as i128) <= 0x2000_0000_0000_0000_0000_0000_0000_0000i128)
                    by (nonlinear_arith)
                    requires
                        2 <= n as i128 <= 0x1_0000_0000_0000_0000i128,
                        -(COORD_MAX as i128) <= cfg.child_gap as i128 <= (COORD_MAX as i128),
                        COORD_MAX == 0x1000_0000_0000_0000i64,
                ;
            }
            ((n - 1) as i128) * (cfg.child_gap as i128)
        };
        let total_w: i128 = match cfg.layout_direction {
            LayoutDirection::LeftToRight => sw + gap_total,
            LayoutDirection::TopToBottom => mxw as i128,
        };
        let total_h: i128 = match cfg.layout_direction {
            LayoutDirection::TopToBottom => sh + gap_total,
            LayoutDirection::LeftToRight => mxh as i128,
        };
        let lead_x: i64 = match cfg.layout_direction {
            LayoutDirection::LeftToRight => cfg.padding_in_axis(),
            LayoutDirection::TopToBottom => cfg.padding_in_other_axis(),
        };
        let lead_y: i64 = match cfg.layout_direction {
            LayoutDirection::LeftToRight => cfg.padding_in_other_axis(),
            LayoutDirection::TopToBottom => cfg.padding_in_axis(),
        };
        acc_x = match cfg.align.x {
            crate::config::Alignment::End => (dimensions.width as i128) - total_w - (
            lead_x as i128),
            crate::config::Alignment::Center => (lead_x as i128) + div2t128(
                (dimensions.width as i128) - total_w,
            ),
            _ => lead_x as i128,
        };
        acc_y = match cfg.align.y {
            crate::config::Alignment::End => (dimensions.height as i128) - total_h - (
            lead_y as i128),
            crate::config::Alignment::Center => (lead_y as i128) + div2t128(
                (dimensions.height as i128) - total_h,
            ),
            _ => lead_y as i128,
        };
        proof {
            bx_spec = acc_x as int;
            by_spec = acc_y as int;
            assert(bx_spec == base_off_x(
                cfg,
                m.width,
                if cfg.layout_direction is LeftToRight {
                    sum_w(m.children) + gap_sum(n as int, gap as int)
                } else {
                    max_w(m.children)
                },
            ));
            assert(by_spec == base_off_y(
                cfg,
                m.height,
                if cfg.layout_direction is TopToBottom {
                    sum_h(m.children) + gap_sum(n as int, gap as int)
                } else {
                    max_h(m.children)
                },
            ));
            assert(-0x4800_0000_0000_0000_0000_0000_0000_0000 <= bx_spec
                <= 0x4800_0000_0000_0000_0000_0000_0000_0000);
            assert(-0x4800_0000_0000_0000_0000_0000_0000_0000 <= by_spec
                <= 0x4800_0000_0000_0000_0000_0000_0000_0000);
        }
    }
    let mut kids = children;
    let mut out: Vec<ElementLayout> = Vec::new();
    while kids.len() > 0
        invariant
            configs_wf(m),
            bounded(m),
            orig == node.children@,
            m.children.len() == orig.len(),
            forall|j: int| 0 <= j < orig.len() ==> m.children[j] == orig[j]@,
            n == orig.len(),
            -COORD_MAX <= x <= COORD_MAX,
            -COORD_MAX <= y <= COORD_MAX,
            -COORD_MAX <= gap <= COORD_MAX,
            m.width == dimensions.width as int,
            m.height == dimensions.height as int,
            out@.len() + kids@.len() == orig.len(),
            kids@ =~= orig.skip(out@.len() as int),
            is_cont <==> m.element is Container,
            m.element matches Element::Container(c) ==> {
                &&& dir == c.config.layout_direction
                &&& gap == c.config.child_gap
                &&& align_x == c.config.align.x
                &&& align_y == c.config.align.y
                &&& bx_spec == base_off_x(
                    c.config,
                    m.width,
                    if c.config.layout_direction is LeftToRight {
                        sum_w(m.children) + gap_sum(n as int, gap as int)
                    } else {
                        max_w(m.children)
                    },
                )
                &&& by_spec == base_off_y(
                    c.config,
                    m.height,
                    if c.config.layout_direction is TopToBottom {
                        sum_h(m.children) + gap_sum(n as int, gap as int)
                    } else {
                        max_h(m.children)
                    },
                )
            },
            is_cont ==> -0x4800_0000_0000_0000_0000_0000_0000_0000 <= bx_spec
                <= 0x4800_0000_0000_0000_0000_0000_0000_0000,
            is_cont ==> -0x4800_0000_0000_0000_0000_0000_0000_0000 <= by_spec
                <= 0x4800_0000_0000_0000_0000_0000_0000_0000,
            -0x6800_0000_0000_0000_0000_0000_0000_0000i128 <= acc_x
                <= 0x6800_0000_0000_0000_0000_0000_0000_0000i128,
            -0x6800_0000_0000_0000_0000_0000_0000_0000i128 <= acc_y
                <= 0x6800_0000_0000_0000_0000_0000_0000_0000i128,
            is_cont ==> acc_x as int == bx_spec + (if dir is LeftToRight {
                off_main_w(m.children, out@.len() as int, gap as int)
            } else {
                0
            }),
            is_cont ==> acc_y as int == by_spec + (if dir is TopToBottom {
                off_main_h(m.children, out@.len() as int, gap as int)
            } else {
                0
            }),
            forall|j: int|
                0 <= j < out@.len() ==> (#[trigger] out@[j])@ == (if m.element is Container {
                    spec_positions_at(
                        m.children[j],
                        if align_x is EndReverse {
                            sat(
                                m.children[j].x + x - (bx_spec + (if dir is LeftToRight {
                                    off_main_w(m.children, j, gap as int)
                                } else {
                                    0
                                })) + m.width - m.children[j].width,
                            )
                        } else {
                            sat(
                                m.children[j].x + x + (bx_spec + (if dir is LeftToRight {
                                    off_main_w(m.children, j, gap as int)
                                } else {
                                    0
                                })),
                            )
                        },
                        if align_y is EndReverse {
                            sat(
                                m.children[j].y + y - (by_spec + (if dir is TopToBottom {
                                    off_main_h(m.children, j, gap as int)
                                } else {
                                    0
                                })) + m.height - m.children[j].height,
                            )
                        } else {
                            sat(
                                m.children[j].y + y + (by_spec + (if dir is TopToBottom {
                                    off_main_h(m.children, j, gap as int)
                                } else {
                                    0
                                })),
                            )
                        },
                    )
                } else {
                    spec_positions_at(m.children[j], m.children[j].x, m.children[j].y)
                }),
            forall|j: int|
                0 <= j < out@.len() ==> bounded((#[trigger] out@[j])@) && configs_wf(out@[j]@),
        decreases kids@.len(),
    {
        let ghost k = out@.len() as int;
        let c = kids.remove(0);
        proof {
            assert(c == orig[k]);
            assert(c@ == m.children[k]);
            assert(configs_wf(m.children[k]));
            assert(bounded(m.children[k]));
            assert(c == node.children@[k]);
            vstd::std_specs::vec::axiom_vec_index_decreases::<ElementLayout>(node.children, k);
            assert(decreases_to!(node => node.children));
            assert(decreases_to!(node => c));
            if is_cont {
                lemma_off_main_w_bound(m.children, k, gap as int);
                lemma_off_main_h_bound(m.children, k, gap as int);
                assert((k + 1) * 2 * (COORD_MAX as int) <= 0x2000_0000_0000_0000_0000_0000_0000_0000)
                    by (nonlinear_arith)
                    requires
                        0 <= k + 1 <= 0x1_0000_0000_0000_0000,
                        COORD_MAX == 0x1000_0000_0000_0000i64,
                ;
                lemma_off_main_w_bound(m.children, k + 1, gap as int);
                lemma_off_main_h_bound(m.children, k + 1, gap as int);
            }
        }
        let cw = c.dimensions().width;
        let ch = c.dimensions().height;
        let cx0 = c.position().x;
        let cy0 = c.position().y;
        let cx: i64;
        let cy: i64;
        if is_cont {
            let x128 = match align_x {
                crate::config::Alignment::EndReverse => (cx0 as i128) + (x as i128) - acc_x + (
                dimensions.width as i128) - (cw as i128),
                _ => (cx0 as i128) + (x as i128) + acc_x,
            };
            let y128 = match align_y {
                crate::config::Alignment::EndReverse => (cy0 as i128) + (y as i128) - acc_y + (
                dimensions.height as i128) - (ch as i128),
                _ => (cy0 as i128) + (y as i128) + acc_y,
            };
            cx = sat64(x128);
            cy = sat64(y128);
        } else {
            cx = cx0;
            cy = cy0;
        }
        let rc = positions_at(c, cx, cy);
        out.push(rc);
        proof {
            if is_cont {
                assert(acc_x as int == bx_spec + (if dir is LeftToRight {
                    off_main_w(m.children, k, gap as int)
                } else {
                    0
                }));
                assert(acc_y as int == by_spec + (if dir is TopToBottom {
                    off_main_h(m.children, k, gap as int)
                } else {
                    0
                }));
                assert(cw as int == m.children[k].width);
                assert(ch as int == m.children[k].height);
                assert(cx0 as int == m.children[k].x);
                assert(cy0 as int == m.children[k].y);
                assert(cx as int == (if align_x is EndReverse {
                    sat(
                        m.children[k].x + x - (bx_spec + (if dir is LeftToRight {
                            off_main_w(m.children, k, gap as int)
                        } else {
                            0
                        })) + m.width - m.children[k].width,
                    )
                } else {
                    sat(
                        m.children[k].x + x + (bx_spec + (if dir is LeftToRight {
                            off_main_w(m.children, k, gap as int)
                        } else {
                            0
                        })),
                    )
                }));
                assert(cy as int == (if align_y is EndReverse {
                    sat(
                        m.children[k].y + y - (by_spec + (if dir is TopToBottom {
                            off_main_h(m.children, k, gap as int)
                        } else {
                            0
                        })) + m.height - m.children[k].height,
                    )
                } else {
                    sat(
                        m.children[k].y + y + (by_spec + (if dir is TopToBottom {
                            off_main_h(m.children, k, gap as int)
                        } else {
                            0
                        })),
                    )
                }));
            } else {
                assert(cx as int == m.children[k].x);
                assert(cy as int == m.children[k].y);
            }
            assert((out@[k])@ == rc@);
        }
        if is_cont {
            match dir {
                LayoutDirection::LeftToRight => {
                    acc_x = acc_x + (cw as i128) + (gap as i128);
                },
                LayoutDirection::TopToBottom => {
                    acc_y = acc_y + (ch as i128) + (gap as i128);
                },
            }
        }
        proof {
            assert(kids@ =~= orig.skip(out@.len() as int));
        }
    }
    let r = ElementLayout {
        position: Point2D { x, y },
        dimensions,
        element,
        children: out,
    };
    proof {
        assert(r@.children.len() == m.children.len());
        assert forall|j: int| 0 <= j < m.children.len() implies r@.children[j] == r.children@[j]@
            by {}
        assert(r@.children =~= spec_positions_at(m, x as int, y as int).children);
        assert(r@ =~= spec_positions_at(m, x as int, y as int));
        assert forall|j: int| 0 <= j < r@.children.len() implies bounded(
            #[trigger] r@.children[j],
        ) && configs_wf(r@.children[j]) by {
            assert(r@.children[j] == r.children@[j]@);
        }
        assert(bounded(r@));
        assert(configs_wf(r@));
    }
    r
}

/// Places the whole tree: the root keeps the position it already has.
pub fn positions(node: ElementLayout) -> (r: ElementLayout)
    requires
        configs_wf(node@),
        bounded(node@),
    ensures
        r@ == spec_positions_at(node@, node@.x, node@.y),
        configs_wf(r@),
        bounded(r@),
{
    let p = node.position();
    positions_at(node, p.x, p.y)
}

/// What the whole pipeline guarantees: the output is the input after the
/// two exact fit passes, a width and a height grow pass, and the exact
/// positioning pass, in that order.
pub open spec fn pipeline_ok(m: LayoutModel, out: LayoutModel) -> bool {
    exists|g1: LayoutModel, g2: LayoutModel|
        {
            &&& #[trigger] grow_w_rel_at(spec_fit_width(m), spec_fit_width(m).width, g1)
            &&& #[trigger] grow_h_rel_at(spec_fit_height(g1), spec_fit_height(g1).height, g2)
            &&& out == spec_positions_at(g2, g2.x, g2.y)
        }
}

/// Runs the six-stage layout pipeline on a freshly built tree: fit widths
/// bottom-up, spread free width top-down, the same for heights, then place
/// every node. The stages are total, so the pass always succeeds.
pub fn calculate_layout(root: ElementLayout) -> (r: Result<ElementLayout, RlayError>)
    requires
        configs_wf(root@),
        bounded(root@),
    ensures
        r is Ok,
        r matches Ok(out) ==> pipeline_ok(root@, out@) && configs_wf(out@) && bounded(out@),
{
    let ghost m = root@;
    let a = fit_width(root);
    let b = grow_width(a);
    let c = fit_height(b);
    let d = grow_height(c);
    let e = positions(d);
    proof {
        let g1 = b@;
        let g2 = d@;
        assert(grow_w_rel_at(spec_fit_width(m), spec_fit_width(m).width, g1));
        assert(grow_h_rel_at(spec_fit_height(g1), spec_fit_height(g1).height, g2));
        assert(e@ == spec_positions_at(g2, g2.x, g2.y));
        assert(pipeline_ok(m, e@));
    }
    Result::Ok(e)
}

proof fn lemma_sum_w_eq_ints(cs: Seq<LayoutModel>, t: Seq<int>)
    requires
        t.len() == cs.len(),
        forall|i: int| 0 <= i < cs.len() ==> #[trigger] t[i] == cs[i].width,
    ensures
        sum_ints(t) == sum_w(cs),
    decreases cs.len(),
{
    if cs.len() > 0 {
        assert forall|i: int| 0 <= i < cs.drop_last().len() implies #[trigger] t.drop_last()[i]
            == cs.drop_last()[i].width by {
            assert(t.drop_last()[i] == t[i]);
            assert(cs.drop_last()[i] == cs[i]);
        }
        lemma_sum_w_eq_ints(cs.drop_last(), t.drop_last());
    }
}

/// A container sized by `Fit` on both axes and holding no children comes
/// out of the pipeline with exactly its padding as its size, clamped to the
/// `Fit` limits; with unconstrained limits that is the padding alone.
pub proof fn lemma_fit_leaf_resolves_to_padding(m: LayoutModel, out: LayoutModel)
    requires
        m.children.len() == 0,
        m.element matches Element::Container(ce) && ce.config.sizing.width is Fit
            && ce.config.sizing.height is Fit,
        pipeline_ok(m, out),
    ensures
        m.element matches Element::Container(ce) ==> {
            let padx = ce.config.padding.left + ce.config.padding.right;
            let pady = ce.config.padding.top + ce.config.padding.bottom;
            &&& (ce.config.sizing.width matches SizingAxis::Fit(mmw) ==> out.width == spec_clamp(
                padx,
                mmw.min as int,
                mmw.max as int,
            ))
            &&& (ce.config.sizing.height matches SizingAxis::Fit(mmh) ==> out.height == spec_clamp(
                pady,
                mmh.min as int,
                mmh.max as int,
            ))
            &&& (ce.config.sizing.width matches SizingAxis::Fit(mmw) && mmw.min <= padx <= mmw.max
                ==> out.width == padx)
            &&& (ce.config.sizing.height matches SizingAxis::Fit(mmh) && mmh.min <= pady <= mmh.max
                ==> out.height == pady)
        },
{
    let (g1, g2) = choose|g1: LayoutModel, g2: LayoutModel|
        {
            &&& #[trigger] grow_w_rel_at(spec_fit_width(m), spec_fit_width(m).width, g1)
            &&& #[trigger] grow_h_rel_at(spec_fit_height(g1), spec_fit_height(g1).height, g2)
            &&& out == spec_positions_at(g2, g2.x, g2.y)
        };
    let fw = spec_fit_width(m);
    match m.element {
        Element::Container(ce) => {
            let padx = ce.config.padding.left + ce.config.padding.right;
            let pady = ce.config.padding.top + ce.config.padding.bottom;
            assert(fw.children.len() == 0);
            assert(sum_w(fw.children) == 0);
            assert(max_w(fw.children) == 0);
            match ce.config.sizing.width {
                SizingAxis::Fit(mmw) => {
                    assert(fw.width == spec_clamp(padx, mmw.min as int, mmw.max as int));
                },
                _ => {},
            }
            assert(g1.width == fw.width);
            assert(g1.height == fw.height);
            assert(g1.element == m.element);
            assert(g1.children.len() == 0);
            let fh = spec_fit_height(g1);
            assert(fh.children.len() == 0);
            assert(sum_h(fh.children) == 0);
            assert(max_h(fh.children) == 0);
            match ce.config.sizing.height {
                SizingAxis::Fit(mmh) => {
                    assert(fh.height == spec_clamp(pady, mmh.min as int, mmh.max as int));
                },
                _ => {},
            }
            assert(fh.width == g1.width);
            assert(g2.width == fh.width);
            assert(g2.height == fh.height);
            assert(out.width == g2.width);
            assert(out.height == g2.height);
        },
        _ => {},
    }
}

/// Along a row, when the free width was not negative, the grow pass never
/// hands out more than there was: the children's widths plus the gaps plus
/// the horizontal padding still fit within the parent's resolved width, and
/// each growable child stays between its incoming width and its own limit.
pub proof fn lemma_grow_width_within_budget(b: LayoutModel, a: LayoutModel)
    requires
        grow_w_rel_at(b, b.width, a),
        b.element matches Element::Container(ce) && {
            let cfg = ce.config;
            &&& cfg.layout_direction is LeftToRight
            &&& b.width - (sum_child_pw(b.children, b.width) + gap_sum(
                b.children.len() as int,
                cfg.child_gap as int,
            )) - (cfg.padding.left + cfg.padding.right) >= 0
            &&& b.width - (sum_child_pw(b.children, b.width) + gap_sum(
                b.children.len() as int,
                cfg.child_gap as int,
            )) - (cfg.padding.left + cfg.padding.right) <= COORD_MAX
        },
    ensures
        b.element matches Element::Container(ce) ==> {
            let cfg = ce.config;
            &&& sum_w(a.children) + gap_sum(b.children.len() as int, cfg.child_gap as int) + (
            cfg.padding.left + cfg.padding.right) <= b.width
            &&& forall|i: int|
                0 <= i < b.children.len() && is_grow_w((#[trigger] b.children[i]).element) ==> min2(
                    child_pw(b.width, b.children[i]),
                    grow_max_w(b.children[i].element),
                ) <= a.children[i].width <= max2(
                    child_pw(b.width, b.children[i]),
                    grow_max_w(b.children[i].element),
                )
        },
{
    match b.element {
        Element::Container(ce) => {
            let cfg = ce.config;
            let n = b.children.len() as int;
            let w = b.width;
            let childw = sum_child_pw(b.children, w) + gap_sum(n, cfg.child_gap as int);
            let rem = sat(w - childw - (cfg.padding.left + cfg.padding.right));
            assert(rem == w - childw - (cfg.padding.left + cfg.padding.right));
            assert(grow_w_distributed(b, w, rem, a));
            let (ws, remf) = choose|ws: Seq<int>, remf: int|
                {
                    &&& #[trigger] grow_w_outcome(b.children, w, rem, ws, remf)
                    &&& (forall|i: int|
                        0 <= i < b.children.len() ==> grow_w_rel_at(
                            b.children[i],
                            ws[i],
                            #[trigger] a.children[i],
                        ))
                };
            assert(remf >= 0);
            assert(sum_ints(ws) <= sum_child_pw(b.children, w) + rem);
            assert forall|i: int| 0 <= i < n implies #[trigger] ws[i] == a.children[i].width by {
                assert(grow_w_rel_at(b.children[i], ws[i], a.children[i]));
            }
            lemma_sum_w_eq_ints(a.children, ws);
            assert(sum_ints(ws) <= sum_child_pw(b.children, w) + rem);
            assert forall|i: int|
                0 <= i < n && is_grow_w((#[trigger] b.children[i]).element) implies min2(
                child_pw(w, b.children[i]),
                grow_max_w(b.children[i].element),
            ) <= a.children[i].width <= max2(
                child_pw(w, b.children[i]),
                grow_max_w(b.children[i].element),
            ) by {
                assert(ws[i] == a.children[i].width);
            }
        },
        _ => {},
    }
}

/// Along a row whose growable children all enter at one width and have
/// room for an equal share, the free width is split evenly: each growable
/// child receives exactly its share of the space left by the others and
/// the padding. Two `Grow` children of an otherwise empty `Fixed` row
/// therefore end at exactly half the row each.
pub proof fn lemma_grow_even_split(b: LayoutModel, a: LayoutModel)
    requires
        grow_w_rel_at(b, b.width, a),
        b.element matches Element::Container(ce) && {
            let n = b.children.len() as int;
            let cfg = ce.config;
            let childw = sum_child_pw(b.children, b.width) + gap_sum(n, cfg.child_gap as int);
            let rem = sat(b.width - childw - (cfg.padding.left + cfg.padding.right));
            &&& cfg.layout_direction is LeftToRight
            &&& rem > 0
            &&& count_grow_w(b.children) > 0
            &&& grow_pw_uniform(b.children, b.width)
            &&& grow_headroom_w(b.children, b.width, rem / count_grow_w(b.children))
        },
    ensures
        b.element matches Element::Container(ce) ==> {
            let n = b.children.len() as int;
            let cfg = ce.config;
            let childw = sum_child_pw(b.children, b.width) + gap_sum(n, cfg.child_gap as int);
            let rem = sat(b.width - childw - (cfg.padding.left + cfg.padding.right));
            forall|i: int|
                0 <= i < b.children.len() && is_grow_w((#[trigger] b.children[i]).element)
                    ==> a.children[i].width == child_pw(b.width, b.children[i]) + rem
                    / count_grow_w(b.children)
        },
{
    match b.element {
        Element::Container(ce) => {
            let w = b.width;
            let n = b.children.len() as int;
            let cfg = ce.config;
            let childw = if cfg.layout_direction is LeftToRight {
                sum_child_pw(b.children, w) + gap_sum(n, cfg.child_gap as int)
            } else {
                0
            };
            let rem = sat(w - childw - (cfg.padding.left + cfg.padding.right));
            assert(grow_w_distributed(b, w, rem, a));
            let (ws, remf) = choose|ws: Seq<int>, remf: int|
                {
                    &&& #[trigger] grow_w_outcome(b.children, w, rem, ws, remf)
                    &&& (forall|i: int|
                        0 <= i < b.children.len() ==> grow_w_rel_at(
                            b.children[i],
                            ws[i],
                            #[trigger] a.children[i],
                        ))
                };
            assert forall|i: int|
                0 <= i < b.children.len() && is_grow_w((#[trigger] b.children[i]).element) implies a.children[i].width
                == child_pw(w, b.children[i]) + rem / count_grow_w(b.children) by {
                assert(ws[i] == child_pw(w, b.children[i]) + rem / count_grow_w(b.children));
                assert(grow_w_rel_at(b.children[i], ws[i], a.children[i]));
            }
        },
        _ => {},
    }
}

/// Across the layout axis of a column, a `Grow` child receives the free
/// width clamped into its own limits - never a width outside them.
pub proof fn lemma_grow_cross_axis_within_limits(b: LayoutModel, a: LayoutModel)
    requires
        configs_wf(b),
        grow_w_rel_at(b, b.width, a),
        b.element matches Element::Container(ce) && ce.config.layout_direction is TopToBottom,
    ensures
        b.element matches Element::Container(ce) ==> forall|i: int|
            0 <= i < b.children.len() && is_grow_w((#[trigger] b.children[i]).element)
                ==> grow_min_w(b.children[i].element) <= a.children[i].width <= grow_max_w(
                b.children[i].element,
            ),
{
    match b.element {
        Element::Container(ce) => {
            let n = b.children.len() as int;
            assert forall|i: int|
                0 <= i < n && is_grow_w((#[trigger] b.children[i]).element) implies grow_min_w(
                b.children[i].element,
            ) <= a.children[i].width <= grow_max_w(b.children[i].element) by {
                let t = spec_clamp(
                    sat(
                        b.width - 0 - (ce.config.padding.left + ce.config.padding.right),
                    ),
                    grow_min_w(b.children[i].element),
                    grow_max_w(b.children[i].element),
                );
                assert(grow_w_rel_at(b.children[i], t, a.children[i]));
                assert(a.children[i].width == t);
                assert(configs_wf(b.children[i]));
                assert(node_config_wf(b.children[i].element));
                assert(grow_min_w(b.children[i].element) <= grow_max_w(b.children[i].element));
            }
        },
        _ => {},
    }
}

/// Every container in the tree whose width policy is `Fixed` has exactly
/// that width.
pub open spec fn fixed_w_hold(t: LayoutModel) -> bool
    decreases t,
{
    &&& (t.element matches Element::Container(c) ==> (c.config.sizing.width matches
        SizingAxis::Fixed(v) ==> t.width == v))
    &&& forall|i: int| 0 <= i < t.children.len() ==> fixed_w_hold(#[trigger] t.children[i])
}

/// Every container in the tree whose height policy is `Fixed` has exactly
/// that height.
pub open spec fn fixed_h_hold(t: LayoutModel) -> bool
    decreases t,
{
    &&& (t.element matches Element::Container(c) ==> (c.config.sizing.height matches
        SizingAxis::Fixed(v) ==> t.height == v))
    &&& forall|i: int| 0 <= i < t.children.len() ==> fixed_h_hold(#[trigger] t.children[i])
}

proof fn lemma_fit_width_keeps_fixed(m: LayoutModel)
    requires
        fixed_w_hold(m),
        fixed_h_hold(m),
    ensures
        fixed_w_hold(spec_fit_width(m)),
        fixed_h_hold(spec_fit_width(m)),
    decreases m,
{
    let r = spec_fit_width(m);
    assert forall|i: int| 0 <= i < r.children.len() implies fixed_w_hold(
        #[trigger] r.children[i],
    ) && fixed_h_hold(r.children[i]) by {
        assert(r.children[i] == spec_fit_width(m.children[i]));
        lemma_fit_width_keeps_fixed(m.children[i]);
    }
}

proof fn lemma_fit_height_keeps_fixed(m: LayoutModel)
    requires
        fixed_w_hold(m),
        fixed_h_hold(m),
    ensures
        fixed_w_hold(spec_fit_height(m)),
        fixed_h_hold(spec_fit_height(m)),
    decreases m,
{
    let r = spec_fit_height(m);
    assert forall|i: int| 0 <= i < r.children.len() implies fixed_w_hold(
        #[trigger] r.children[i],
    ) && fixed_h_hold(r.children[i]) by {
        assert(r.children[i] == spec_fit_height(m.children[i]));
        lemma_fit_height_keeps_fixed(m.children[i]);
    }
}

proof fn lemma_grow_w_keeps_fixed(b: LayoutModel, w: int, a: LayoutModel)
    requires
        grow_w_rel_at(b, w, a),
        fixed_w_hold(b),
        fixed_h_hold(b),
        b.element matches Element::Container(c) ==> (c.config.sizing.width matches
            SizingAxis::Fixed(v) ==> w == v),
    ensures
        fixed_w_hold(a),
        fixed_h_hold(a),
    decreases b,
{
    let n = b.children.len() as int;
    match b.element {
        Element::Container(c) => {
            let cfg = c.config;
            let childw = if cfg.layout_direction is LeftToRight {
                sum_child_pw(b.children, w) + gap_sum(n, cfg.child_gap as int)
            } else {
                0
            };
            let rem = sat(w - childw - (cfg.padding.left + cfg.padding.right));
            if cfg.layout_direction is TopToBottom {
                assert forall|i: int| 0 <= i < n implies fixed_w_hold(
                    #[trigger] a.children[i],
                ) && fixed_h_hold(a.children[i]) by {
                    let t = if is_grow_w(b.children[i].element) {
                        spec_clamp(
                            rem,
                            grow_min_w(b.children[i].element),
                            grow_max_w(b.children[i].element),
                        )
                    } else {
                        child_pw(w, b.children[i])
                    };
                    assert(grow_w_rel_at(b.children[i], t, a.children[i]));
                    assert(fixed_w_hold(b.children[i]));
                    lemma_grow_w_keeps_fixed(b.children[i], t, a.children[i]);
                }
            } else {
                assert(grow_w_distributed(b, w, rem, a));
                let (ws, remf) = choose|ws: Seq<int>, remf: int|
                    {
                        &&& #[trigger] grow_w_outcome(b.children, w, rem, ws, remf)
                        &&& (forall|i: int|
                            0 <= i < b.children.len() ==> grow_w_rel_at(
                                b.children[i],
                                ws[i],
                                #[trigger] a.children[i],
                            ))
                    };
                assert forall|i: int| 0 <= i < n implies fixed_w_hold(
                    #[trigger] a.children[i],
                ) && fixed_h_hold(a.children[i]) by {
                    assert(grow_w_rel_at(b.children[i], ws[i], a.children[i]));
                    assert(fixed_w_hold(b.children[i]));
                    lemma_grow_w_keeps_fixed(b.children[i], ws[i], a.children[i]);
                }
            }
        },
        _ => {
            assert forall|i: int| 0 <= i < n implies fixed_w_hold(#[trigger] a.children[i])
                && fixed_h_hold(a.children[i]) by {
                assert(grow_w_rel_at(b.children[i], child_pw(w, b.children[i]), a.children[i]));
                assert(fixed_w_hold(b.children[i]));
                lemma_grow_w_keeps_fixed(b.children[i], child_pw(w, b.children[i]), a.children[i]);
            }
        },
    }
}

proof fn lemma_grow_h_keeps_fixed(b: LayoutModel, w: int, a: LayoutModel)
    requires
        grow_h_rel_at(b, w, a),
        fixed_w_hold(b),
        fixed_h_hold(b),
        b.element matches Element::Container(c) ==> (c.config.sizing.height matches
            SizingAxis::Fixed(v) ==> w == v),
    ensures
        fixed_w_hold(a),
        fixed_h_hold(a),
    decreases b,
{
    let n = b.children.len() as int;
    match b.element {
        Element::Container(c) => {
            let cfg = c.config;
            let childh = if cfg.layout_direction is TopToBottom {
                sum_child_ph(b.children, w) + gap_sum(n, cfg.child_gap as int)
            } else {
                0
            };
            let rem = sat(w - childh - (cfg.padding.top + cfg.padding.bottom));
            if cfg.layout_direction is LeftToRight {
                assert forall|i: int| 0 <= i < n implies fixed_w_hold(
                    #[trigger] a.children[i],
                ) && fixed_h_hold(a.children[i]) by {
                    let t = if is_grow_h(b.children[i].element) {
                        spec_clamp(
                            rem,
                            grow_min_h(b.children[i].element),
                            grow_max_h(b.children[i].element),
                        )
                    } else {
                        child_ph(w, b.children[i])
                    };
                    assert(grow_h_rel_at(b.children[i], t, a.children[i]));
                    assert(fixed_h_hold(b.children[i]));
                    lemma_grow_h_keeps_fixed(b.children[i], t, a.children[i]);
                }
            } else {
                assert(grow_h_distributed(b, w, rem, a));
                let (ws, remf) = choose|ws: Seq<int>, remf: int|
                    {
                        &&& #[trigger] grow_h_outcome(b.children, w, rem, ws, remf)
                        &&& (forall|i: int|
                            0 <= i < b.children.len() ==> grow_h_rel_at(
                                b.children[i],
                                ws[i],
                                #[trigger] a.children[i],
                            ))
                    };
                assert forall|i: int| 0 <= i < n implies fixed_w_hold(
                    #[trigger] a.children[i],
                ) && fixed_h_hold(a.children[i]) by {
                    assert(grow_h_rel_at(b.children[i], ws[i], a.children[i]));
                    assert(fixed_h_hold(b.children[i]));
                    lemma_grow_h_keeps_fixed(b.children[i], ws[i], a.children[i]);
                }
            }
        },
        _ => {
            assert forall|i: int| 0 <= i < n implies fixed_w_hold(#[trigger] a.children[i])
                && fixed_h_hold(a.children[i]) by {
                assert(grow_h_rel_at(b.children[i], child_ph(w, b.children[i]), a.children[i]));
                assert(fixed_h_hold(b.children[i]));
                lemma_grow_h_keeps_fixed(b.children[i], child_ph(w, b.children[i]), a.children[i]);
            }
        },
    }
}

proof fn lemma_positions_keeps_fixed(b: LayoutModel, x: int, y: int)
    requires
        fixed_w_hold(b),
        fixed_h_hold(b),
    ensures
        fixed_w_hold(spec_positions_at(b, x, y)),
        fixed_h_hold(spec_positions_at(b, x, y)),
    decreases b,
{
    let r = spec_positions_at(b, x, y);
    assert(r.width == b.width);
    assert(r.height == b.height);
    assert(r.element == b.element);
    assert(r.children.len() == b.children.len());
    assert forall|i: int| 0 <= i < r.children.len() implies fixed_w_hold(
        #[trigger] r.children[i],
    ) && fixed_h_hold(r.children[i]) by {
        assert(fixed_w_hold(b.children[i]));
        assert(fixed_h_hold(b.children[i]));
        match b.element {
            Element::Container(c) => {
                let cfg = c.config;
                let n = b.children.len() as int;
                let gap = cfg.child_gap as int;
                let total_w = if cfg.layout_direction is LeftToRight {
                    sum_w(b.children) + gap_sum(n, gap)
                } else {
                    max_w(b.children)
                };
                let total_h = if cfg.layout_direction is TopToBottom {
                    sum_h(b.children) + gap_sum(n, gap)
                } else {
                    max_h(b.children)
                };
                let bx = base_off_x(cfg, b.width, total_w);
                let by = base_off_y(cfg, b.height, total_h);
                let offx = if cfg.layout_direction is LeftToRight {
                    bx + off_main_w(b.children, i, gap)
                } else {
                    bx
                };
                let offy = if cfg.layout_direction is TopToBottom {
                    by + off_main_h(b.children, i, gap)
                } else {
                    by
                };
                let cx = if cfg.align.x is EndReverse {
                    sat(b.children[i].x + x - offx + b.width - b.children[i].width)
                } else {
                    sat(b.children[i].x + x + offx)
                };
                let cy = if cfg.align.y is EndReverse {
                    sat(b.children[i].y + y - offy + b.height - b.children[i].height)
                } else {
                    sat(b.children[i].y + y + offy)
                };
                assert(r.children[i] == spec_positions_at(b.children[i], cx, cy));
                lemma_positions_keeps_fixed(b.children[i], cx, cy);
            },
            _ => {
                assert(r.children[i] == spec_positions_at(
                    b.children[i],
                    b.children[i].x,
                    b.children[i].y,
                ));
                lemma_positions_keeps_fixed(b.children[i], b.children[i].x, b.children[i].y);
            },
        }
    }
}

/// A container sized `Fixed` on both axes leaves the pipeline with exactly
/// those sizes, whatever its children did - and so does every `Fixed`
/// container below it, as long as the tree entered the pipeline with every
/// `Fixed` size already written into its node, which is how trees are built.
pub proof fn lemma_fixed_sizes_survive(m: LayoutModel, out: LayoutModel)
    requires
        fixed_w_hold(m),
        fixed_h_hold(m),
        pipeline_ok(m, out),
    ensures
        fixed_w_hold(out),
        fixed_h_hold(out),
{
    let (g1, g2) = choose|g1: LayoutModel, g2: LayoutModel|
        {
            &&& #[trigger] grow_w_rel_at(spec_fit_width(m), spec_fit_width(m).width, g1)
            &&& #[trigger] grow_h_rel_at(spec_fit_height(g1), spec_fit_height(g1).height, g2)
            &&& out == spec_positions_at(g2, g2.x, g2.y)
        };
    lemma_fit_width_keeps_fixed(m);
    let fw = spec_fit_width(m);
    lemma_grow_w_keeps_fixed(fw, fw.width, g1);
    lemma_fit_height_keeps_fixed(g1);
    let fh = spec_fit_height(g1);
    lemma_grow_h_keeps_fixed(fh, fh.height, g2);
    lemma_positions_keeps_fixed(g2, g2.x, g2.y);
}

/// Whether the cursor lies in the node's rectangle, both edges included on
/// both axes.
pub open spec fn spec_inside(cx: int, cy: int, t: LayoutModel) -> bool {
    &&& t.x <= cx <= t.x + t.width
    &&& t.y <= cy <= t.y + t.height
}

/// The set holding just the node's id, where it has one.
pub open spec fn own_id_set(e: Element) -> Set<Seq<char>> {
    match e.spec_id_view() {
        Option::Some(s) => Set::empty().insert(s),
        Option::None => Set::empty(),
    }
}

/// The ids of all nodes the cursor is over: a node is hovered when the
/// cursor is inside its rectangle and inside every ancestor up to the root.
pub open spec fn hovered_ids(t: LayoutModel, cx: int, cy: int) -> Set<Seq<char>>
    decreases t,
{
    if spec_inside(cx, cy, t) {
        own_id_set(t.element).union(kids_hovered(t.children, cx, cy))
    } else {
        Set::empty()
    }
}

pub open spec fn kids_hovered(cs: Seq<LayoutModel>, cx: int, cy: int) -> Set<
    Seq<char>,
>
    decreases cs,
{
    if cs.len() == 0 {
        Set::empty()
    } else {
        kids_hovered(cs.drop_last(), cx, cy).union(hovered_ids(cs.last(), cx, cy))
    }
}

/// The node's id when it is a focusable container with an id.
pub open spec fn focusable_own(t: LayoutModel) -> Set<Seq<char>> {
    match t.element {
        Element::Container(c) => if c.config.focusable {
            own_id_set(t.element)
        } else {
            Set::empty()
        },
        _ => Set::empty(),
    }
}

/// The focusable ids the hover walk visits: every node visited reports
/// itself, and the walk descends only into hovered nodes.
pub open spec fn focusables_seen(t: LayoutModel, cx: int, cy: int) -> Set<Seq<char>>
    decreases t,
{
    focusable_own(t).union(
        if spec_inside(cx, cy, t) {
            kids_focusables(t.children, cx, cy)
        } else {
            Set::empty()
        },
    )
}

pub open spec fn kids_focusables(cs: Seq<LayoutModel>, cx: int, cy: int) -> Set<
    Seq<char>,
>
    decreases cs,
{
    if cs.len() == 0 {
        Set::empty()
    } else {
        kids_focusables(cs.drop_last(), cx, cy).union(focusables_seen(cs.last(), cx, cy))
    }
}

/// Walks the finished layout: every node whose rectangle the cursor lies in
/// joins `hovered`, together with all its hovered descendants; every visited
/// node that is a focusable container joins `focusable`. Descent stops at
/// nodes the cursor is outside of.
pub fn collect_hovered(
    node: &ElementLayout,
    cx: i64,
    cy: i64,
    hovered: &mut Vec<String>,
    focusable: &mut Vec<String>,
)
    requires
        ids_unique(old(hovered)@),
        ids_unique(old(focusable)@),
    ensures
        ids_unique(final(hovered)@),
        ids_unique(final(focusable)@),
        set_of(final(hovered)@) == set_of(old(hovered)@).union(
            hovered_ids(node@, cx as int, cy as int),
        ),
        set_of(final(focusable)@) == set_of(old(focusable)@).union(
            focusables_seen(node@, cx as int, cy as int),
        ),
    decreases *node,
{
    let ghost m = node@;
    let mut put_focusable = false;
    if let Element::Container(c) = &node.element {
        if c.config.focusable {
            match node.element.id() {
                Option::Some(id) => {
                    insert_id(focusable, id.clone());
                    put_focusable = true;
                },
                Option::None => {},
            }
        }
    }
    proof {
        if !put_focusable {
            assert(set_of(focusable@) =~= set_of(old(focusable)@).union(focusable_own(m)));
        } else {
            assert(set_of(focusable@) =~= set_of(old(focusable)@).union(focusable_own(m)));
        }
    }
    let px = node.position.x;
    let py = node.position.y;
    let w = node.dimensions.width;
    let h = node.dimensions.height;
    let inside = (cx as i128) >= (px as i128) && (cx as i128) <= (px as i128) + (w as i128) && (
    cy as i128) >= (py as i128) && (cy as i128) <= (py as i128) + (h as i128);
    proof {
        assert(inside == spec_inside(cx as int, cy as int, m));
    }
    if !inside {
        proof {
            assert(set_of(hovered@) =~= set_of(old(hovered)@).union(
                hovered_ids(m, cx as int, cy as int),
            ));
            assert(set_of(focusable@) =~= set_of(old(focusable)@).union(
                focusables_seen(m, cx as int, cy as int),
            ));
        }
        return ;
    }
    match node.element.id() {
        Option::Some(id) => {
            insert_id(hovered, id.clone());
        },
        Option::None => {},
    }
    let ghost hov1 = set_of(old(hovered)@).union(own_id_set(m.element));
    let ghost foc1 = set_of(old(focusable)@).union(focusable_own(m));
    proof {
        assert(set_of(hovered@) =~= hov1);
    }
    let n = node.children.len();
    let mut i: usize = 0;
    while i < n
        invariant
            ids_unique(hovered@),
            ids_unique(focusable@),
            n == node.children@.len(),
            n == m.children.len(),
            m == node@,
            spec_inside(cx as int, cy as int, m),
            i <= n,
            forall|j: int| 0 <= j < n ==> m.children[j] == node.children@[j]@,
            set_of(hovered@) == hov1.union(kids_hovered_take(m.children, cx as int, cy as int, i as int)),
            set_of(focusable@) == foc1.union(
                kids_focusables_take(m.children, cx as int, cy as int, i as int),
            ),
        decreases n - i,
    {
        let ghost pre_h = set_of(hovered@);
        let ghost pre_f = set_of(focusable@);
        collect_hovered(&node.children[i], cx, cy, hovered, focusable);
        proof {
            assert(node.children@[i as int]@ == m.children[i as int]);
            assert(kids_hovered_take(m.children, cx as int, cy as int, i + 1 as int)
                == kids_hovered_take(m.children, cx as int, cy as int, i as int).union(
                hovered_ids(m.children[i as int], cx as int, cy as int),
            ));
            assert(set_of(hovered@) =~= hov1.union(
                kids_hovered_take(m.children, cx as int, cy as int, i + 1 as int),
            ));
            assert(kids_focusables_take(m.children, cx as int, cy as int, i + 1 as int)
                == kids_focusables_take(m.children, cx as int, cy as int, i as int).union(
                focusables_seen(m.children[i as int], cx as int, cy as int),
            ));
            assert(set_of(focusable@) =~= foc1.union(
                kids_focusables_take(m.children, cx as int, cy as int, i + 1 as int),
            ));
        }
        i += 1;
    }
    proof {
        lemma_kids_hovered_take_all(m.children, cx as int, cy as int);
        lemma_kids_focusables_take_all(m.children, cx as int, cy as int);
        assert(set_of(hovered@) =~= set_of(old(hovered)@).union(
            hovered_ids(m, cx as int, cy as int),
        ));
        assert(set_of(focusable@) =~= set_of(old(focusable)@).union(
            focusables_seen(m, cx as int, cy as int),
        ));
    }
}

/// The hovered ids among the first `k` children.
pub open spec fn kids_hovered_take(
    cs: Seq<LayoutModel>,
    cx: int,
    cy: int,
    k: int,
) -> Set<Seq<char>>
    decreases k,
{
    if k <= 0 || k > cs.len() {
        Set::empty()
    } else {
        kids_hovered_take(cs, cx, cy, k - 1).union(hovered_ids(cs[k - 1], cx, cy))
    }
}

/// The focusable ids seen among the first `k` children.
pub open spec fn kids_focusables_take(
    cs: Seq<LayoutModel>,
    cx: int,
    cy: int,
    k: int,
) -> Set<Seq<char>>
    decreases k,
{
    if k <= 0 || k > cs.len() {
        Set::empty()
    } else {
        kids_focusables_take(cs, cx, cy, k - 1).union(focusables_seen(cs[k - 1], cx, cy))
    }
}

proof fn lemma_kids_hovered_take_all(cs: Seq<LayoutModel>, cx: int, cy: int)
    ensures
        kids_hovered_take(cs, cx, cy, cs.len() as int) == kids_hovered(cs, cx, cy),
    decreases cs.len(),
{
    if cs.len() > 0 {
        lemma_kids_hovered_take_all(cs.drop_last(), cx, cy);
        lemma_kids_hovered_take_prefix(cs, cx, cy, cs.len() - 1);
        assert(kids_hovered_take(cs, cx, cy, cs.len() as int) =~= kids_hovered(cs, cx, cy));
    } else {
        assert(kids_hovered_take(cs, cx, cy, 0) =~= kids_hovered(cs, cx, cy));
    }
}

proof fn lemma_kids_hovered_take_prefix(cs: Seq<LayoutModel>, cx: int, cy: int, k: int)
    requires
        0 <= k <= cs.len() - 1,
    ensures
        kids_hovered_take(cs, cx, cy, k) == kids_hovered_take(cs.drop_last(), cx, cy, k),
    decreases k,
{
    if k > 0 {
        lemma_kids_hovered_take_prefix(cs, cx, cy, k - 1);
        assert(cs.drop_last()[k - 1] == cs[k - 1]);
        assert(kids_hovered_take(cs, cx, cy, k) =~= kids_hovered_take(cs.drop_last(), cx, cy, k));
    } else {
        assert(kids_hovered_take(cs, cx, cy, 0) =~= kids_hovered_take(cs.drop_last(), cx, cy, 0));
    }
}

proof fn lemma_kids_focusables_take_all(cs: Seq<LayoutModel>, cx: int, cy: int)
    ensures
        kids_focusables_take(cs, cx, cy, cs.len() as int) == kids_focusables(cs, cx, cy),
    decreases cs.len(),
{
    if cs.len() > 0 {
        lemma_kids_focusables_take_all(cs.drop_last(), cx, cy);
        lemma_kids_focusables_take_prefix(cs, cx, cy, cs.len() - 1);
        assert(kids_focusables_take(cs, cx, cy, cs.len() as int) =~= kids_focusables(cs, cx, cy));
    } else {
        assert(kids_focusables_take(cs, cx, cy, 0) =~= kids_focusables(cs, cx, cy));
    }
}

proof fn lemma_kids_focusables_take_prefix(cs: Seq<LayoutModel>, cx: int, cy: int, k: int)
    requires
        0 <= k <= cs.len() - 1,
    ensures
        kids_focusables_take(cs, cx, cy, k) == kids_focusables_take(cs.drop_last(), cx, cy, k),
    decreases k,
{
    if k > 0 {
        lemma_kids_focusables_take_prefix(cs, cx, cy, k - 1);
        assert(cs.drop_last()[k - 1] == cs[k - 1]);
        assert(kids_focusables_take(cs, cx, cy, k) =~= kids_focusables_take(
            cs.drop_last(),
            cx,
            cy,
            k,
        ));
    } else {
        assert(kids_focusables_take(cs, cx, cy, 0) =~= kids_focusables_take(
            cs.drop_last(),
            cx,
            cy,
            0,
        ));
    }
}

/// Hit-testing is inclusive on both edges of both axes: a pointer exactly
/// on the shared edge of two adjacent siblings lies inside both rectangles,
/// so a boundary position is never classified ambiguously - the same rule
/// answers for each sibling.
pub proof fn lemma_edge_hit_inclusive(a: LayoutModel, b: LayoutModel, cx: int, cy: int)
    requires
        a.width >= 0,
        b.width >= 0,
        a.x + a.width == b.x,
        cx == b.x,
        a.y <= cy <= a.y + a.height,
        b.y <= cy <= b.y + b.height,
    ensures
        spec_inside(cx, cy, a),
        spec_inside(cx, cy, b),
{
}

/// Checks that every container configuration in the tree is within the
/// engine's limits and every stored coordinate is representable: exactly
/// the precondition of the layout pipeline.
pub fn check_tree(t: &ElementLayout) -> (r: bool)
    ensures
        r == (configs_wf(t@) && bounded(t@)),
    decreases *t,
{
    let own_cfg = match &t.element {
        Element::Container(c) => c.config.wf_check(),
        _ => true,
    };
    if !own_cfg {
        return false;
    }
    let p = t.position;
    let d = t.dimensions;
    if p.x < -COORD_MAX || p.x > COORD_MAX || p.y < -COORD_MAX || p.y > COORD_MAX || d.width
        < -COORD_MAX || d.width > COORD_MAX || d.height < -COORD_MAX || d.height > COORD_MAX {
        return false;
    }
    let n = t.children.len();
    let mut i: usize = 0;
    while i < n
        invariant
            n == t.children@.len(),
            i <= n,
            node_config_wf(t@.element),
            -COORD_MAX <= t@.x <= COORD_MAX,
            -COORD_MAX <= t@.y <= COORD_MAX,
            -COORD_MAX <= t@.width <= COORD_MAX,
            -COORD_MAX <= t@.height <= COORD_MAX,
            forall|j: int|
                0 <= j < i ==> configs_wf(#[trigger] t@.children[j]) && bounded(t@.children[j]),
        decreases n - i,
    {
        proof {
            assert(t@.children[i as int] == t.children@[i as int]@);
        }
        if !check_tree(&t.children[i]) {
            return false;
        }
        i += 1;
    }
    proof {
        assert(configs_wf(t@));
        assert(bounded(t@));
    }
    true
}

} // verus!
