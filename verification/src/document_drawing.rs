//! A whole document: in which order its items are drawn, and what can be hit.

use crate::attachment::library_symbols;
use crate::double::Double;
use crate::geometry::Bounds;
use crate::geometry::Point;
use crate::plane::Query;
use crate::plane::Reply;
use crate::readers::at_point;
use crate::readers::child_text;
use crate::readers::symbol_reference;
use crate::rtree::traversal_order_with_refresh;
use crate::rtree::IndexBounds;
use crate::rtree::IndexEntry;
use crate::scene::find_next;
use crate::scene::rank_of;
use crate::scene::svg_reference_ranks;
use crate::scene::ColorRole;
use crate::scene::ObjectKind;
use crate::scene_builder::SceneBuilder;
use crate::scene_builder::SceneObject;
use crate::sexp::Node;
use crate::stl_sort::glibcxx_sort_by;
use crate::text::same;
use vstd::prelude::*;

verus! {

/// The classes of items that a document draws one after the other.
#[derive(Clone, Copy, PartialEq, Eq, Structural, Debug)]
pub enum Item {
    Sheet,
    Symbol,
    FramedLabel,
    Label,
    Bus,
    Wire,
    BusEntry,
    NoConnect,
    Text,
    Junction,
}

impl crate::scene_builder::Picture {
    /// The picture with one more item.
    pub open spec fn item<F: Fn(Query) -> Reply>(
        self,
        f: F,
        item: Item,
        node: crate::sexp::Sexp,
        libraries: Seq<crate::sexp::Sexp>,
    ) -> crate::scene_builder::Picture {
        match item {
            Item::Sheet => self.sheet(f, node),
            Item::Symbol => self.symbol(f, node, libraries),
            Item::FramedLabel => self.label(f, node, true),
            Item::Label => self.label(f, node, false),
            Item::Bus => self.wire(f, node, ColorRole::Bus, ObjectKind::Bus),
            Item::Wire => self.wire(f, node, ColorRole::Wire, ObjectKind::Wire),
            Item::BusEntry => self.bus_entry(f, node),
            Item::NoConnect => self.no_connect(f, node),
            Item::Text => self.sheet_text(f, node),
            Item::Junction => self.junction(f, node),
        }
    }

    /// The picture with the first `n` items.
    pub open spec fn items_upto<F: Fn(Query) -> Reply>(
        self,
        f: F,
        item: Item,
        nodes: Seq<crate::sexp::Sexp>,
        libraries: Seq<crate::sexp::Sexp>,
        n: nat,
    ) -> crate::scene_builder::Picture
        decreases n,
    {
        if n == 0 {
            self
        } else {
            self.items_upto(f, item, nodes, libraries, (n - 1) as nat).item(
                f,
                item,
                nodes[n - 1],
                libraries,
            )
        }
    }

    /// The picture with more items.
    pub open spec fn items<F: Fn(Query) -> Reply>(
        self,
        f: F,
        item: Item,
        nodes: Seq<crate::sexp::Sexp>,
        libraries: Seq<crate::sexp::Sexp>,
    ) -> crate::scene_builder::Picture {
        self.items_upto(f, item, nodes, libraries, nodes.len())
    }

    /// The picture with all items of a document under a tag.
    pub open spec fn all<F: Fn(Query) -> Reply>(
        self,
        f: F,
        item: Item,
        root: crate::sexp::Sexp,
        tag: Seq<char>,
    ) -> crate::scene_builder::Picture {
        self.items(f, item, root.tagged(tag), crate::attachment::libraries_of(root))
    }

    /// The picture with a document's labels, lines, crosses and texts.
    pub open spec fn annotations<F: Fn(Query) -> Reply>(
        self,
        f: F,
        root: crate::sexp::Sexp,
    ) -> crate::scene_builder::Picture {
        self.all(f, Item::FramedLabel, root, "hierarchical_label"@).all(
            f,
            Item::FramedLabel,
            root,
            "global_label"@,
        ).all(f, Item::Label, root, "label"@).all(f, Item::Bus, root, "bus"@).all(
            f,
            Item::Wire,
            root,
            "wire"@,
        ).all(f, Item::BusEntry, root, "bus_entry"@).all(
            f,
            Item::NoConnect,
            root,
            "no_connect"@,
        ).all(f, Item::Text, root, "text"@)
    }
}

/// A document's items in the order of their classes, for the index alone.
pub open spec fn index_picture<F: Fn(Query) -> Reply>(
    f: F,
    root: crate::sexp::Sexp,
) -> crate::scene_builder::Picture {
    crate::scene_builder::Picture { shapes: Seq::empty(), things: Seq::empty() }.all(
        f,
        Item::Sheet,
        root,
        "sheet"@,
    ).all(f, Item::Symbol, root, "symbol"@).annotations(f, root).all(
        f,
        Item::Junction,
        root,
        "junction"@,
    )
}

pub open spec fn wf_nodes(nodes: Seq<&Node>) -> bool {
    forall|i: int| 0 <= i < nodes.len() ==> (#[trigger] nodes[i]).wf()
}

impl SceneBuilder {
    fn draw_item<F: Fn(Query) -> Reply + Copy>(
        &mut self,
        f: F,
        item: Item,
        node: &Node,
        libraries: &Vec<&Node>,
    )
        requires
            old(self).wf(),
            crate::plane::is_plane(f),
            node.wf(),
            wf_nodes(libraries@),
        ensures
            final(self).wf(),
            final(self)@ == old(self)@.item(f, item, node@, crate::sexp::ref_sexps(libraries@)),
    {
        match item {
            Item::Sheet => self.draw_sheet(f, node),
            Item::Symbol => self.draw_symbol(f, node, libraries),
            Item::FramedLabel => self.draw_label(f, node, true),
            Item::Label => self.draw_label(f, node, false),
            Item::Bus => self.draw_wire(f, node, ColorRole::Bus, ObjectKind::Bus),
            Item::Wire => self.draw_wire(f, node, ColorRole::Wire, ObjectKind::Wire),
            Item::BusEntry => self.draw_bus_entry(f, node),
            Item::NoConnect => self.draw_no_connect(f, node),
            Item::Text => self.draw_top_level_text(f, node),
            Item::Junction => self.draw_junction(f, node),
        }
    }

    fn draw_items<F: Fn(Query) -> Reply + Copy>(
        &mut self,
        f: F,
        item: Item,
        nodes: &Vec<&Node>,
        libraries: &Vec<&Node>,
    )
        requires
            old(self).wf(),
            crate::plane::is_plane(f),
            wf_nodes(nodes@),
            wf_nodes(libraries@),
        ensures
            final(self).wf(),
            final(self)@ == old(self)@.items(
                f,
                item,
                crate::sexp::ref_sexps(nodes@),
                crate::sexp::ref_sexps(libraries@),
            ),
    {
        let ghost before = self@;
        let ghost all = crate::sexp::ref_sexps(nodes@);
        let ghost known = crate::sexp::ref_sexps(libraries@);
        let mut i: usize = 0;
        while i < nodes.len()
            invariant
                i <= nodes@.len(),
                self.wf(),
                crate::plane::is_plane(f),
                wf_nodes(nodes@),
                wf_nodes(libraries@),
                all == crate::sexp::ref_sexps(nodes@),
                known == crate::sexp::ref_sexps(libraries@),
                self@ == before.items_upto(f, item, all, known, i as nat),
            decreases nodes@.len() - i,
        {
            assert(all[i as int] == nodes@[i as int]@);
            self.draw_item(f, item, nodes[i], libraries);
            i = i + 1;
        }
    }

    fn draw_all<F: Fn(Query) -> Reply + Copy>(
        &mut self,
        f: F,
        item: Item,
        root: &Node,
        tag: &str,
        libraries: &Vec<&Node>,
    )
        requires
            old(self).wf(),
            crate::plane::is_plane(f),
            root.wf(),
            wf_nodes(libraries@),
            crate::sexp::ref_sexps(libraries@) == crate::attachment::libraries_of(root@),
        ensures
            final(self).wf(),
            final(self)@ == old(self)@.all(f, item, root@, tag@),
    {
        let nodes = root.find_all(tag);
        self.draw_items(f, item, &nodes, libraries);
    }

    fn draw_annotations<F: Fn(Query) -> Reply + Copy>(
        &mut self,
        f: F,
        root: &Node,
        libraries: &Vec<&Node>,
    )
        requires
            old(self).wf(),
            crate::plane::is_plane(f),
            root.wf(),
            wf_nodes(libraries@),
            crate::sexp::ref_sexps(libraries@) == crate::attachment::libraries_of(root@),
        ensures
            final(self).wf(),
            final(self)@ == old(self)@.annotations(f, root@),
    {
        self.draw_all(f, Item::FramedLabel, root, "hierarchical_label", libraries);
        self.draw_all(f, Item::FramedLabel, root, "global_label", libraries);
        self.draw_all(f, Item::Label, root, "label", libraries);
        self.draw_all(f, Item::Bus, root, "bus", libraries);
        self.draw_all(f, Item::Wire, root, "wire", libraries);
        self.draw_all(f, Item::BusEntry, root, "bus_entry", libraries);
        self.draw_all(f, Item::NoConnect, root, "no_connect", libraries);
        self.draw_all(f, Item::Text, root, "text", libraries);
    }
}

/// Draws the items of a document for the index alone.
fn draw_for_index<F: Fn(Query) -> Reply + Copy>(f: F, root: &Node, libraries: &Vec<&Node>) -> (r:
    SceneBuilder)
    requires
        crate::plane::is_plane(f),
        root.wf(),
        wf_nodes(libraries@),
        crate::sexp::ref_sexps(libraries@) == crate::attachment::libraries_of(root@),
    ensures
        r.wf(),
        r@ == index_picture(f, root@),
{
    let mut index = SceneBuilder::new();
    assert(index@ =~= crate::scene_builder::Picture {
        shapes: Seq::empty(),
        things: Seq::empty(),
    });
    index.draw_all(f, Item::Sheet, root, "sheet", libraries);
    index.draw_all(f, Item::Symbol, root, "symbol", libraries);
    index.draw_annotations(f, root, libraries);
    index.draw_all(f, Item::Junction, root, "junction", libraries);
    index
}

/// What stands at the given places.
pub open spec fn picked<T>(s: Seq<T>, order: Seq<usize>) -> Seq<T> {
    order.map_values(|i: usize| s[i as int])
}

/// How the source of a document names an identifier.
pub open spec fn uuid_mark(uuid: Seq<char>) -> Seq<char> {
    "(uuid \""@ + uuid + "\")"@
}

/// Where the source of a document names an identifier first.
pub open spec fn source_key(source: Seq<char>, uuid: Seq<char>) -> u64 {
    match crate::scene::next_place(source, uuid_mark(uuid), 0) {
        Some(at) => at as u64,
        None => u64::MAX,
    }
}

pub open spec fn source_keys(
    source: Seq<char>,
    things: Seq<crate::scene_builder::Thing>,
) -> Seq<u64> {
    things.map_values(|t: crate::scene_builder::Thing| source_key(source, t.uuid))
}

/// The objects in the order in which the source names them.
pub open spec fn in_source_order(
    source: Seq<char>,
    things: Seq<crate::scene_builder::Thing>,
) -> Seq<crate::scene_builder::Thing> {
    picked(things, crate::ordering::stable_places(source_keys(source, things)))
}

fn find_source_keys(source: &Vec<char>, objects: &Vec<SceneObject>) -> (r: Vec<u64>)
    ensures
        r@ == source_keys(source@, crate::scene_builder::things(objects@)),
{
    let ghost all = crate::scene_builder::things(objects@);
    let mut r: Vec<u64> = Vec::new();
    let mut i: usize = 0;
    while i < objects.len()
        invariant
            i <= objects@.len(),
            all == crate::scene_builder::things(objects@),
            r@.len() == i,
            forall|k: int| 0 <= k < i ==> #[trigger] r@[k] == source_key(source@, all[k].uuid),
        decreases objects@.len() - i,
    {
        assert(all[i as int] == objects@[i as int].model());
        let mark = crate::text::joined3("(uuid \"", objects[i].uuid.as_str(), "\")");
        let needle = crate::text::chars_of(mark.as_str());
        let key: u64 = match find_next(source, &needle, 0) {
            Some(at) => at as u64,
            None => u64::MAX,
        };
        r.push(key);
        i = i + 1;
    }
    assert(r@ =~= source_keys(source@, all));
    r
}

/// A coordinate in the units of the index.
pub open spec fn index_coordinate(d: Double) -> int {
    d.spec_product(crate::double::nearest(10000, 0)).spec_round().spec_to_i64()
}

/// The sides of a box in the units of the index.
pub open spec fn index_sides(b: Bounds) -> (int, int, int, int) {
    (
        index_coordinate(b.min_x),
        index_coordinate(b.min_y),
        index_coordinate(b.max_x),
        index_coordinate(b.max_y),
    )
}

/// The box can be indexed: its sides are in order and within reach.
pub open spec fn can_index(b: Bounds) -> bool {
    let (min_x, min_y, max_x, max_y) = index_sides(b);
    &&& -crate::rtree_model::REACH <= min_x <= max_x <= crate::rtree_model::REACH
    &&& -crate::rtree_model::REACH <= min_y <= max_y <= crate::rtree_model::REACH
}

/// The box as it is indexed.
pub open spec fn index_bounds_of(b: Bounds) -> IndexBounds {
    let (min_x, min_y, max_x, max_y) = index_sides(b);
    IndexBounds {
        min_x: min_x as i64,
        min_y: min_y as i64,
        max_x: max_x as i64,
        max_y: max_y as i64,
    }
}

fn to_index_bounds(b: Bounds) -> (r: Option<IndexBounds>)
    requires
        b.wf(),
    ensures
        match r {
            Some(i) => can_index(b) && i == index_bounds_of(b) && i.wf(),
            None => !can_index(b),
        },
{
    let scale = Double::from_int(10000);
    let min_x: i64 = b.min_x.times(scale).rounded_away().to_i64();
    let min_y: i64 = b.min_y.times(scale).rounded_away().to_i64();
    let max_x: i64 = b.max_x.times(scale).rounded_away().to_i64();
    let max_y: i64 = b.max_y.times(scale).rounded_away().to_i64();
    let reach: i64 = crate::rtree_model::REACH;
    if -reach <= min_x && min_x <= max_x && max_x <= reach && -reach <= min_y && min_y <= max_y
        && max_y <= reach {
        Some(IndexBounds { min_x, min_y, max_x, max_y })
    } else {
        None
    }
}

/// Every object can be indexed.
pub open spec fn can_index_all(things: Seq<crate::scene_builder::Thing>) -> bool {
    forall|i: int|
        0 <= i < things.len() ==> can_index((#[trigger] things[i]).initial_index_bounds)
            && can_index(things[i].index_bounds)
}

/// The objects as they are indexed.
pub open spec fn entries_of(things: Seq<crate::scene_builder::Thing>) -> Seq<IndexEntry> {
    things.map_values(
        |t: crate::scene_builder::Thing|
            IndexEntry {
                item_type: t.item_type as i32,
                initial: index_bounds_of(t.initial_index_bounds),
                resolved: index_bounds_of(t.index_bounds),
            },
    )
}

fn find_entries(objects: &Vec<SceneObject>, places: &Vec<usize>) -> (r: Option<Vec<IndexEntry>>)
    requires
        forall|i: int| 0 <= i < objects@.len() ==> (#[trigger] objects@[i]).wf(),
        forall|i: int| 0 <= i < places@.len() ==> #[trigger] places@[i] < objects@.len(),
    ensures
        ({
            let all = picked(crate::scene_builder::things(objects@), places@);
            match r {
                Some(entries) => can_index_all(all) && entries@ == entries_of(all)
                    && crate::rtree::wf_entries(entries@),
                None => !can_index_all(all),
            }
        }),
{
    let ghost all = picked(crate::scene_builder::things(objects@), places@);
    let mut r: Vec<IndexEntry> = Vec::new();
    let mut i: usize = 0;
    while i < places.len()
        invariant
            i <= places@.len(),
            all == picked(crate::scene_builder::things(objects@), places@),
            forall|i: int| 0 <= i < objects@.len() ==> (#[trigger] objects@[i]).wf(),
            forall|i: int| 0 <= i < places@.len() ==> #[trigger] places@[i] < objects@.len(),
            r@.len() == i,
            forall|k: int|
                0 <= k < i ==> can_index((#[trigger] all[k]).initial_index_bounds) && can_index(
                    all[k].index_bounds,
                ),
            forall|k: int| 0 <= k < i ==> #[trigger] r@[k] == entries_of(all)[k],
            crate::rtree::wf_entries(r@),
        decreases places@.len() - i,
    {
        assert(places@[i as int] < objects@.len());
        let object = &objects[places[i]];
        assert(object.wf());
        assert(all[i as int] == object.model());
        let initial = match to_index_bounds(object.initial_index_bounds) {
            Some(initial) => initial,
            None => {
                return None;
            },
        };
        let resolved = match to_index_bounds(object.index_bounds) {
            Some(resolved) => resolved,
            None => {
                return None;
            },
        };
        r.push(IndexEntry { item_type: object.item_type, initial, resolved });
        i = i + 1;
    }
    assert(r@ =~= entries_of(all));
    Some(r)
}

/// Where a symbol with an identifier stands last among the first `n` of an order.
pub open spec fn symbol_rank(
    things: Seq<crate::scene_builder::Thing>,
    order: Seq<usize>,
    uuid: Seq<char>,
    n: nat,
) -> Option<nat>
    decreases n,
{
    if n == 0 {
        None
    } else {
        let thing = things[order[n - 1] as int];
        if thing.kind == ObjectKind::Symbol && thing.uuid == uuid {
            Some((n - 1) as nat)
        } else {
            symbol_rank(things, order, uuid, (n - 1) as nat)
        }
    }
}

/// The orders by which symbols are drawn.
pub ghost struct Ranks {
    /// The objects in the order of the source.
    pub things: Seq<crate::scene_builder::Thing>,
    /// The order of the first drawing.
    pub plot: Seq<usize>,
    /// The order of the second.
    pub redraw: Seq<usize>,
}

/// The objects by the number of their type, greatest first.
pub open spec fn by_type(
    things: Seq<crate::scene_builder::Thing>,
) -> spec_fn(usize, usize) -> bool {
    |a: usize, b: usize| type_at(things, a) > type_at(things, b)
}

pub open spec fn type_at(things: Seq<crate::scene_builder::Thing>, i: usize) -> int {
    if i < things.len() {
        things[i as int].item_type
    } else {
        0
    }
}

/// The order without the places of junctions, as far as the first `n`.
pub open spec fn without_junctions(
    things: Seq<crate::scene_builder::Thing>,
    order: Seq<usize>,
    n: nat,
) -> Seq<usize>
    decreases n,
{
    if n == 0 {
        Seq::empty()
    } else {
        let before = without_junctions(things, order, (n - 1) as nat);
        if things[order[n - 1] as int].kind == ObjectKind::Junction {
            before
        } else {
            before.push(order[n - 1])
        }
    }
}

/// `plot` is `order` without junctions, sorted by type the way libstdc++ does.
pub open spec fn is_plot_order(
    things: Seq<crate::scene_builder::Thing>,
    order: Seq<usize>,
    plot: Seq<usize>,
) -> bool {
    let unsorted = without_junctions(things, order, order.len());
    &&& plot.to_multiset() == unsorted.to_multiset()
    &&& crate::stl_sort::sorted_by(plot, by_type(things))
    &&& plot == crate::stl_sort::sorted_model(unsorted, by_type(things))
}

/// `ranks` are the orders by which the symbols of a document are drawn. Objects that cannot be
/// indexed leave them empty.
pub open spec fn is_ranks<F: Fn(Query) -> Reply>(
    ranks: Ranks,
    f: F,
    root: crate::sexp::Sexp,
    source: Seq<char>,
) -> bool {
    let things = in_source_order(source, index_picture(f, root).things);
    if can_index_all(things) {
        &&& ranks.things == things
        &&& crate::rtree::numbers(ranks.redraw) == crate::rtree_model::visiting_order(
            crate::rtree::models(entries_of(things)),
            5,
        )
        &&& is_plot_order(things, ranks.redraw, ranks.plot)
    } else {
        ranks == Ranks { things: Seq::empty(), plot: Seq::empty(), redraw: Seq::empty() }
    }
}

/// The orders by which symbols are drawn, with the objects that they speak of.
pub struct SymbolRanks {
    pub objects: Vec<SceneObject>,
    pub places: Vec<usize>,
    pub plot: Vec<usize>,
    pub redraw: Vec<usize>,
}

impl SymbolRanks {
    pub open spec fn model(self) -> Ranks {
        Ranks {
            things: picked(crate::scene_builder::things(self.objects@), self.places@),
            plot: self.plot@,
            redraw: self.redraw@,
        }
    }

    pub open spec fn wf(self) -> bool {
        &&& forall|i: int|
            0 <= i < self.places@.len() ==> #[trigger] self.places@[i] < self.objects@.len()
        &&& forall|i: int|
            0 <= i < self.plot@.len() ==> #[trigger] self.plot@[i] < self.places@.len()
        &&& forall|i: int|
            0 <= i < self.redraw@.len() ==> #[trigger] self.redraw@[i] < self.places@.len()
    }
}

proof fn lemma_visited(order: Seq<usize>, n: nat)
    requires
        crate::rtree::numbers(order).to_multiset() == Seq::new(n, |i: int| i as nat).to_multiset(),
    ensures
        forall|i: int| 0 <= i < order.len() ==> #[trigger] order[i] < n,
{
    let all = Seq::new(n, |i: int| i as nat);
    assert forall|i: int| 0 <= i < order.len() implies #[trigger] order[i] < n by {
        let numbers = crate::rtree::numbers(order);
        assert(numbers[i] == order[i] as nat);
        vstd::seq_lib::to_multiset_contains(numbers, numbers[i]);
        assert(numbers.contains(numbers[i]));
        vstd::seq_lib::to_multiset_contains(all, numbers[i]);
        assert(all.contains(numbers[i]));
        let k = choose|k: int| 0 <= k < all.len() && all[k] == numbers[i];
        assert(all[k] == k);
    }
}

proof fn lemma_same_elements(a: Seq<usize>, b: Seq<usize>, n: nat)
    requires
        a.to_multiset() == b.to_multiset(),
        forall|i: int| 0 <= i < b.len() ==> #[trigger] b[i] < n,
    ensures
        forall|i: int| 0 <= i < a.len() ==> #[trigger] a[i] < n,
{
    assert forall|i: int| 0 <= i < a.len() implies #[trigger] a[i] < n by {
        vstd::seq_lib::to_multiset_contains(a, a[i]);
        assert(a.contains(a[i]));
        vstd::seq_lib::to_multiset_contains(b, a[i]);
        assert(b.contains(a[i]));
        let k = choose|k: int| 0 <= k < b.len() && b[k] == a[i];
        assert(b[k] < n);
    }
}

/// Places by the number that stands there, greatest first.
spec fn by_number(types: Seq<i32>) -> spec_fn(usize, usize) -> bool {
    |a: usize, b: usize| number_at(types, a) > number_at(types, b)
}

spec fn number_at(types: Seq<i32>, i: usize) -> int {
    if i < types.len() {
        types[i as int] as int
    } else {
        0
    }
}

fn sort_by_type(plot: &mut Vec<usize>, types: &Vec<i32>)
    ensures
        final(plot)@.to_multiset() == old(plot)@.to_multiset(),
        crate::stl_sort::sorted_by(final(plot)@, by_number(types@)),
        final(plot)@ == crate::stl_sort::sorted_model(old(plot)@, by_number(types@)),
{
    let later = |a: usize, b: usize| -> (r: bool)
        ensures
            r == (number_at(types@, a) > number_at(types@, b)),
        {
            let x: i32 = if a < types.len() {
                types[a]
            } else {
                0
            };
            let y: i32 = if b < types.len() {
                types[b]
            } else {
                0
            };
            x > y
        };
    assert(crate::stl_sort::orders(later, by_number(types@)));
    glibcxx_sort_by(plot.as_mut_slice(), later);
}

fn find_types(objects: &Vec<SceneObject>, places: &Vec<usize>) -> (r: Vec<i32>)
    requires
        forall|i: int| 0 <= i < places@.len() ==> #[trigger] places@[i] < objects@.len(),
    ensures
        by_number(r@) == by_type(picked(crate::scene_builder::things(objects@), places@)),
{
    let ghost arranged = picked(crate::scene_builder::things(objects@), places@);
    let mut types: Vec<i32> = Vec::new();
    let mut i: usize = 0;
    while i < places.len()
        invariant
            i <= places@.len(),
            arranged == picked(crate::scene_builder::things(objects@), places@),
            forall|i: int| 0 <= i < places@.len() ==> #[trigger] places@[i] < objects@.len(),
            types@.len() == i,
            forall|k: int| 0 <= k < i ==> #[trigger] types@[k] == arranged[k].item_type,
        decreases places@.len() - i,
    {
        assert(places@[i as int] < objects@.len());
        assert(arranged[i as int] == objects@[places@[i as int] as int].model());
        types.push(objects[places[i]].item_type);
        i = i + 1;
    }
    assert(by_number(types@) =~= by_type(arranged));
    types
}

fn drop_junctions(objects: &Vec<SceneObject>, places: &Vec<usize>, order: &Vec<usize>) -> (r: Vec<
    usize,
>)
    requires
        forall|i: int| 0 <= i < places@.len() ==> #[trigger] places@[i] < objects@.len(),
        forall|i: int| 0 <= i < order@.len() ==> #[trigger] order@[i] < places@.len(),
    ensures
        r@ == without_junctions(
            picked(crate::scene_builder::things(objects@), places@),
            order@,
            order@.len(),
        ),
        forall|i: int| 0 <= i < r@.len() ==> #[trigger] r@[i] < places@.len(),
{
    let ghost arranged = picked(crate::scene_builder::things(objects@), places@);
    let mut plot: Vec<usize> = Vec::new();
    let mut i: usize = 0;
    while i < order.len()
        invariant
            i <= order@.len(),
            arranged == picked(crate::scene_builder::things(objects@), places@),
            forall|i: int| 0 <= i < places@.len() ==> #[trigger] places@[i] < objects@.len(),
            forall|i: int| 0 <= i < order@.len() ==> #[trigger] order@[i] < places@.len(),
            plot@ == without_junctions(arranged, order@, i as nat),
            forall|i: int| 0 <= i < plot@.len() ==> #[trigger] plot@[i] < places@.len(),
        decreases order@.len() - i,
    {
        assert(order@[i as int] < places@.len());
        let place: usize = order[i];
        assert(places@[place as int] < objects@.len());
        assert(arranged[place as int] == objects@[places@[place as int] as int].model());
        if objects[places[place]].kind != ObjectKind::Junction {
            plot.push(place);
        }
        i = i + 1;
    }
    plot
}

/// Finds the orders by which the symbols of a document are drawn.
fn kicad_symbol_ranks<F: Fn(Query) -> Reply + Copy>(
    f: F,
    root: &Node,
    source: &str,
    libraries: &Vec<&Node>,
) -> (r: SymbolRanks)
    requires
        crate::plane::is_plane(f),
        root.wf(),
        wf_nodes(libraries@),
        crate::sexp::ref_sexps(libraries@) == crate::attachment::libraries_of(root@),
    ensures
        r.wf(),
        is_ranks(r.model(), f, root@, source@),
{
    let index = draw_for_index(f, root, libraries);
    let objects = index.objects;
    let ghost things = crate::scene_builder::things(objects@);
    let text = crate::text::chars_of(source);
    let keys = find_source_keys(&text, &objects);
    let places = crate::ordering::stable_order(&keys);
    let ghost arranged = picked(things, places@);
    assert(arranged == in_source_order(source@, things));
    let entries = match find_entries(&objects, &places) {
        Some(entries) => entries,
        None => {
            let none = SymbolRanks {
                objects: Vec::new(),
                places: Vec::new(),
                plot: Vec::new(),
                redraw: Vec::new(),
            };
            assert(none.model().things =~= Seq::empty());
            assert(none.model().plot =~= Seq::empty());
            assert(none.model().redraw =~= Seq::empty());
            return none;
        },
    };
    let redraw = traversal_order_with_refresh(&entries, 5);
    proof {
        lemma_visited(redraw@, places@.len());
    }
    let n: usize = places.len();
    let types = find_types(&objects, &places);
    let mut plot = drop_junctions(&objects, &places, &redraw);
    let ghost unsorted = plot@;
    sort_by_type(&mut plot, &types);
    proof {
        lemma_same_elements(plot@, unsorted, n as nat);
    }
    let r = SymbolRanks { objects, places, plot, redraw };
    assert(is_plot_order(arranged, redraw@, plot@));
    r
}

/// The key by which a symbol is drawn: its rank, or the greatest number where it has none.
pub open spec fn rank_key(
    things: Seq<crate::scene_builder::Thing>,
    order: Seq<usize>,
    node: crate::sexp::Sexp,
) -> u64 {
    match node.first_text("uuid"@) {
        Some(uuid) => match symbol_rank(things, order, uuid, order.len()) {
            Some(rank) => rank as u64,
            None => u64::MAX,
        },
        None => u64::MAX,
    }
}

pub open spec fn rank_keys(
    things: Seq<crate::scene_builder::Thing>,
    order: Seq<usize>,
    nodes: Seq<crate::sexp::Sexp>,
) -> Seq<u64> {
    nodes.map_values(|node: crate::sexp::Sexp| rank_key(things, order, node))
}

/// The references of the first `n` symbols that have one.
pub open spec fn references_upto(nodes: Seq<crate::sexp::Sexp>, n: nat) -> Seq<Seq<char>>
    decreases n,
{
    if n == 0 {
        Seq::empty()
    } else {
        let before = references_upto(nodes, (n - 1) as nat);
        match crate::readers::reference_of(nodes[n - 1]) {
            Some(reference) => before.push(reference),
            None => before,
        }
    }
}

/// The key by which a symbol is drawn where a picture file shows the order.
pub open spec fn svg_key(ranks: Seq<crate::scene::Ranked>, node: crate::sexp::Sexp) -> u64 {
    match crate::readers::reference_of(node) {
        Some(reference) => match crate::scene::rank_upto(ranks, reference, ranks.len()) {
            Some(rank) => rank as u64,
            None => u64::MAX,
        },
        None => u64::MAX,
    }
}

pub open spec fn svg_keys(
    ranks: Seq<crate::scene::Ranked>,
    nodes: Seq<crate::sexp::Sexp>,
) -> Seq<u64> {
    nodes.map_values(|node: crate::sexp::Sexp| svg_key(ranks, node))
}

/// The symbols in the order of `order`, and where a picture file shows another one, in that.
pub open spec fn arranged(
    nodes: Seq<crate::sexp::Sexp>,
    things: Seq<crate::scene_builder::Thing>,
    order: Seq<usize>,
    svg: Option<Seq<char>>,
    occurrence: nat,
) -> Seq<crate::sexp::Sexp> {
    let ranked = picked(nodes, crate::ordering::stable_places(rank_keys(things, order, nodes)));
    match svg {
        None => ranked,
        Some(svg) => match crate::scene::svg_ranks(
            svg,
            references_upto(ranked, ranked.len()),
            occurrence,
        ) {
            None => ranked,
            Some(ranks) => picked(
                ranked,
                crate::ordering::stable_places(svg_keys(ranks, ranked)),
            ),
        },
    }
}

fn pick<'a>(nodes: &Vec<&'a Node>, order: &Vec<usize>) -> (r: Vec<&'a Node>)
    requires
        wf_nodes(nodes@),
        forall|i: int| 0 <= i < order@.len() ==> #[trigger] order@[i] < nodes@.len(),
    ensures
        crate::sexp::ref_sexps(r@) == picked(crate::sexp::ref_sexps(nodes@), order@),
        wf_nodes(r@),
{
    let ghost all = crate::sexp::ref_sexps(nodes@);
    let mut r: Vec<&Node> = Vec::new();
    let mut i: usize = 0;
    while i < order.len()
        invariant
            i <= order@.len(),
            all == crate::sexp::ref_sexps(nodes@),
            wf_nodes(nodes@),
            forall|i: int| 0 <= i < order@.len() ==> #[trigger] order@[i] < nodes@.len(),
            r@.len() == i,
            forall|k: int| 0 <= k < i ==> (#[trigger] r@[k])@ == all[order@[k] as int],
            wf_nodes(r@),
        decreases order@.len() - i,
    {
        assert(order@[i as int] < nodes@.len());
        assert(all[order@[i as int] as int] == nodes@[order@[i as int] as int]@);
        r.push(nodes[order[i]]);
        i = i + 1;
    }
    assert(crate::sexp::ref_sexps(r@) =~= picked(all, order@));
    r
}

fn find_rank_keys(ranks: &SymbolRanks, order: &Vec<usize>, nodes: &Vec<&Node>) -> (r: Vec<u64>)
    requires
        ranks.wf(),
        forall|i: int| 0 <= i < order@.len() ==> #[trigger] order@[i] < ranks.places@.len(),
    ensures
        r@ == rank_keys(ranks.model().things, order@, crate::sexp::ref_sexps(nodes@)),
{
    let ghost all = crate::sexp::ref_sexps(nodes@);
    let ghost things = ranks.model().things;
    let mut r: Vec<u64> = Vec::new();
    let mut i: usize = 0;
    while i < nodes.len()
        invariant
            i <= nodes@.len(),
            all == crate::sexp::ref_sexps(nodes@),
            things == ranks.model().things,
            ranks.wf(),
            forall|i: int| 0 <= i < order@.len() ==> #[trigger] order@[i] < ranks.places@.len(),
            r@.len() == i,
            forall|k: int| 0 <= k < i ==> #[trigger] r@[k] == rank_key(things, order@, all[k]),
        decreases nodes@.len() - i,
    {
        assert(all[i as int] == nodes@[i as int]@);
        let key: u64 = match child_text(nodes[i], "uuid") {
            Some(uuid) => find_rank(ranks, order, uuid),
            None => u64::MAX,
        };
        r.push(key);
        i = i + 1;
    }
    assert(r@ =~= rank_keys(things, order@, all));
    r
}

fn find_rank(ranks: &SymbolRanks, order: &Vec<usize>, uuid: &str) -> (r: u64)
    requires
        ranks.wf(),
        forall|i: int| 0 <= i < order@.len() ==> #[trigger] order@[i] < ranks.places@.len(),
    ensures
        r == (match symbol_rank(ranks.model().things, order@, uuid@, order@.len()) {
            Some(rank) => rank as u64,
            None => u64::MAX,
        }),
{
    let ghost things = ranks.model().things;
    let mut n: usize = order.len();
    while n > 0
        invariant
            n <= order@.len(),
            things == ranks.model().things,
            ranks.wf(),
            forall|i: int| 0 <= i < order@.len() ==> #[trigger] order@[i] < ranks.places@.len(),
            symbol_rank(things, order@, uuid@, order@.len()) == symbol_rank(
                things,
                order@,
                uuid@,
                n as nat,
            ),
        decreases n,
    {
        assert(order@[n - 1] < ranks.places@.len());
        let place: usize = order[n - 1];
        assert(ranks.places@[place as int] < ranks.objects@.len());
        let object = &ranks.objects[ranks.places[place]];
        assert(things[place as int] == object.model());
        if object.kind == ObjectKind::Symbol && same(object.uuid.as_str(), uuid) {
            return (n - 1) as u64;
        }
        n = n - 1;
    }
    u64::MAX
}

fn find_references(nodes: &Vec<&Node>) -> (r: Vec<String>)
    ensures
        crate::text::views(r@) == references_upto(
            crate::sexp::ref_sexps(nodes@),
            nodes@.len(),
        ),
{
    let ghost all = crate::sexp::ref_sexps(nodes@);
    let mut r: Vec<String> = Vec::new();
    let mut i: usize = 0;
    assert(crate::text::views(r@) =~= Seq::empty());
    while i < nodes.len()
        invariant
            i <= nodes@.len(),
            all == crate::sexp::ref_sexps(nodes@),
            crate::text::views(r@) == references_upto(all, i as nat),
        decreases nodes@.len() - i,
    {
        assert(all[i as int] == nodes@[i as int]@);
        let ghost before = crate::text::views(r@);
        if let Some(reference) = symbol_reference(nodes[i]) {
            r.push(reference.to_owned());
            assert(crate::text::views(r@) =~= before.push(reference@));
        }
        i = i + 1;
    }
    r
}

fn find_svg_keys(ranks: &Vec<crate::scene::ReferenceRank>, nodes: &Vec<&Node>) -> (r: Vec<u64>)
    ensures
        r@ == svg_keys(crate::scene::ranked(ranks@), crate::sexp::ref_sexps(nodes@)),
{
    let ghost all = crate::sexp::ref_sexps(nodes@);
    let ghost known = crate::scene::ranked(ranks@);
    let mut r: Vec<u64> = Vec::new();
    let mut i: usize = 0;
    while i < nodes.len()
        invariant
            i <= nodes@.len(),
            all == crate::sexp::ref_sexps(nodes@),
            known == crate::scene::ranked(ranks@),
            r@.len() == i,
            forall|k: int| 0 <= k < i ==> #[trigger] r@[k] == svg_key(known, all[k]),
        decreases nodes@.len() - i,
    {
        assert(all[i as int] == nodes@[i as int]@);
        let key: u64 = match symbol_reference(nodes[i]) {
            Some(reference) => match rank_of(ranks, reference) {
                Some(rank) => rank as u64,
                None => u64::MAX,
            },
            None => u64::MAX,
        };
        r.push(key);
        i = i + 1;
    }
    assert(r@ =~= svg_keys(known, all));
    r
}

fn arrange<'a>(
    nodes: &Vec<&'a Node>,
    ranks: &SymbolRanks,
    order: &Vec<usize>,
    svg: Option<&str>,
    occurrence: usize,
) -> (r: Vec<&'a Node>)
    requires
        wf_nodes(nodes@),
        ranks.wf(),
        forall|i: int| 0 <= i < order@.len() ==> #[trigger] order@[i] < ranks.places@.len(),
    ensures
        crate::sexp::ref_sexps(r@) == arranged(
            crate::sexp::ref_sexps(nodes@),
            ranks.model().things,
            order@,
            crate::sexp::ref_view(svg),
            occurrence as nat,
        ),
        wf_nodes(r@),
{
    let keys = find_rank_keys(ranks, order, nodes);
    let places = crate::ordering::stable_order(&keys);
    let first = pick(nodes, &places);
    let svg = match svg {
        Some(svg) => svg,
        None => {
            return first;
        },
    };
    let references = find_references(&first);
    match svg_reference_ranks(svg, &references, occurrence) {
        Some(ranks) => {
            let keys = find_svg_keys(&ranks, &first);
            let places = crate::ordering::stable_order(&keys);
            pick(&first, &places)
        },
        None => first,
    }
}

/// The position of a sheet, the origin where it has none.
pub open spec fn corner_of(node: crate::sexp::Sexp) -> Point {
    match node.at_point() {
        Some(at) => at,
        None => Point { x: Double::spec_zero(), y: Double::spec_zero() },
    }
}

/// Sheets from the right to the left, and from the top to the bottom.
pub open spec fn by_corner(nodes: Seq<crate::sexp::Sexp>) -> spec_fn(usize, usize) -> bool {
    |a: usize, b: usize| b < nodes.len() && (a >= nodes.len() || right_of(
        corner_of(nodes[a as int]),
        corner_of(nodes[b as int]),
    ))
}

/// `a` lies further to the right than `b`, or above it.
pub open spec fn right_of(a: Point, b: Point) -> bool {
    b.x.spec_less(a.x) || (!a.x.spec_less(b.x) && a.y.spec_less(b.y))
}

/// The sheets in the order in which they are drawn.
pub open spec fn sheets_in_order(root: crate::sexp::Sexp) -> Seq<crate::sexp::Sexp> {
    let sheets = root.tagged("sheet"@);
    picked(sheets, crate::ordering::stable_by(sheets.len(), by_corner(sheets)))
}

proof fn lemma_corners(nodes: Seq<crate::sexp::Sexp>)
    requires
        forall|i: int|
            0 <= i < nodes.len() ==> corner_of(#[trigger] nodes[i]).x.wf() && corner_of(
                nodes[i],
            ).y.wf(),
    ensures
        crate::stl_sort::strict_weak_order(by_corner(nodes)),
{
    let lt = by_corner(nodes);
    assert forall|a: usize, b: usize| #[trigger] lt(a, b) implies !lt(b, a) by {
        if a < nodes.len() && b < nodes.len() {
            let p = corner_of(nodes[a as int]);
            let q = corner_of(nodes[b as int]);
            crate::double::less_is_total(p.x, q.x, p.x);
            crate::double::less_is_total(p.y, q.y, p.y);
        }
    }
    assert forall|a: usize, b: usize, c: usize|
        !(#[trigger] lt(a, b)) && !(#[trigger] lt(b, c)) implies !lt(a, c) by {
        if a < nodes.len() && b < nodes.len() && c < nodes.len() {
            let p = corner_of(nodes[a as int]);
            let q = corner_of(nodes[b as int]);
            let r = corner_of(nodes[c as int]);
            crate::double::less_is_total(p.x, q.x, r.x);
            crate::double::less_is_total(q.x, p.x, r.x);
            crate::double::less_is_total(r.x, q.x, p.x);
            crate::double::less_is_total(q.x, r.x, p.x);
            crate::double::less_is_total(p.x, r.x, q.x);
            crate::double::less_is_total(r.x, p.x, q.x);
            crate::double::less_is_total(p.y, q.y, r.y);
        }
    }
}

fn find_corner(node: &Node) -> (r: Point)
    requires
        node.wf(),
    ensures
        r == corner_of(node@),
        r.x.wf(),
        r.y.wf(),
{
    match at_point(node) {
        Some(at) => at,
        None => Point { x: crate::kicad_font::zero(), y: crate::kicad_font::zero() },
    }
}

fn sort_sheets<'a>(root: &'a Node) -> (r: Vec<&'a Node>)
    requires
        root.wf(),
    ensures
        crate::sexp::ref_sexps(r@) == sheets_in_order(root@),
        wf_nodes(r@),
{
    let sheets = root.find_all("sheet");
    let ghost all = root@.tagged("sheet"@);
    let n: usize = sheets.len();
    let mut corners: Vec<Point> = Vec::new();
    let mut i: usize = 0;
    while i < n
        invariant
            i <= n == sheets@.len(),
            all == crate::sexp::ref_sexps(sheets@),
            wf_nodes(sheets@),
            corners@.len() == i,
            forall|k: int| 0 <= k < i ==> #[trigger] corners@[k] == corner_of(all[k]),
            forall|k: int| 0 <= k < i ==> (#[trigger] corners@[k]).x.wf() && corners@[k].y.wf(),
        decreases n - i,
    {
        assert(all[i as int] == sheets@[i as int]@);
        corners.push(find_corner(sheets[i]));
        i = i + 1;
    }
    let order = order_corners(&corners);
    proof {
        assert forall|i: int| 0 <= i < all.len() implies corner_of(
            #[trigger] all[i],
        ).x.wf() && corner_of(all[i]).y.wf() by {
            assert(corners@[i].x.wf());
        }
        lemma_corners(all);
        assert(by_point(corners@) =~= by_corner(all));
        crate::ordering::stable_order_is_known(order@, n as nat, by_corner(all));
    }
    pick(&sheets, &order)
}

spec fn by_point(corners: Seq<Point>) -> spec_fn(usize, usize) -> bool {
    |a: usize, b: usize| b < corners.len() && (a >= corners.len() || right_of(
        corners[a as int],
        corners[b as int],
    ))
}

proof fn lemma_points(corners: Seq<Point>)
    requires
        forall|k: int| 0 <= k < corners.len() ==> (#[trigger] corners[k]).x.wf() && corners[k].y.wf(),
    ensures
        crate::stl_sort::strict_weak_order(by_point(corners)),
{
    let lt = by_point(corners);
    assert forall|a: usize, b: usize| #[trigger] lt(a, b) implies !lt(b, a) by {
        if a < corners.len() && b < corners.len() {
            let p = corners[a as int];
            let q = corners[b as int];
            crate::double::less_is_total(p.x, q.x, p.x);
            crate::double::less_is_total(p.y, q.y, p.y);
        }
    }
    assert forall|a: usize, b: usize, c: usize|
        !(#[trigger] lt(a, b)) && !(#[trigger] lt(b, c)) implies !lt(a, c) by {
        if a < corners.len() && b < corners.len() && c < corners.len() {
            let p = corners[a as int];
            let q = corners[b as int];
            let r = corners[c as int];
            crate::double::less_is_total(p.x, q.x, r.x);
            crate::double::less_is_total(q.x, p.x, r.x);
            crate::double::less_is_total(r.x, q.x, p.x);
            crate::double::less_is_total(q.x, r.x, p.x);
            crate::double::less_is_total(p.x, r.x, q.x);
            crate::double::less_is_total(r.x, p.x, q.x);
            crate::double::less_is_total(p.y, q.y, r.y);
        }
    }
}

fn order_corners(corners: &Vec<Point>) -> (r: Vec<usize>)
    requires
        forall|k: int|
            0 <= k < corners@.len() ==> (#[trigger] corners@[k]).x.wf() && corners@[k].y.wf(),
    ensures
        crate::ordering::is_stable_order(r@, corners@.len(), by_point(corners@)),
{
    let n: usize = corners.len();
    let less = |a: usize, b: usize| -> (r: bool)
        ensures
            r == by_point(corners@)(a, b),
        {
            if a < n && b < n {
                let p = corners[a];
                let q = corners[b];
                assert(corners@[a as int].x.wf() && corners@[b as int].x.wf());
                q.x.less(p.x) || (!p.x.less(q.x) && p.y.less(q.y))
            } else {
                b < n
            }
        };
    proof {
        lemma_points(corners@);
        assert(crate::stl_sort::orders(less, by_point(corners@)));
    }
    crate::ordering::stable_order_by(n, less)
}

/// The object at place `i` overlaps another one.
pub open spec fn overlaps_at(things: Seq<crate::scene_builder::Thing>, i: int) -> bool {
    exists|j: int|
        0 <= j < things.len() && j != i && things[i].index_bounds.spec_intersects(
            (#[trigger] things[j]).index_bounds,
        )
}

/// An object with the identifier overlaps another one.
pub open spec fn is_overlapping(
    things: Seq<crate::scene_builder::Thing>,
    uuid: Seq<char>,
) -> bool {
    exists|i: int|
        0 <= i < things.len() && (#[trigger] things[i]).uuid == uuid && overlaps_at(things, i)
}

fn overlaps_another(objects: &Vec<SceneObject>, from: usize, i: usize) -> (r: bool)
    requires
        forall|i: int| 0 <= i < objects@.len() ==> (#[trigger] objects@[i]).wf(),
        from <= i < objects@.len(),
    ensures
        r == overlaps_at(crate::scene_builder::things(objects@).skip(from as int), i - from),
{
    let ghost things = crate::scene_builder::things(objects@).skip(from as int);
    assert(things[i - from] == objects@[i as int].model());
    let mut j: usize = from;
    while j < objects.len()
        invariant
            from <= j <= objects@.len(),
            from <= i < objects@.len(),
            things == crate::scene_builder::things(objects@).skip(from as int),
            things[i - from] == objects@[i as int].model(),
            forall|i: int| 0 <= i < objects@.len() ==> (#[trigger] objects@[i]).wf(),
            forall|k: int|
                0 <= k < j - from && k != i - from
                    ==> !things[i - from].index_bounds.spec_intersects(
                    (#[trigger] things[k]).index_bounds,
                ),
        decreases objects@.len() - j,
    {
        assert(things[j - from] == objects@[j as int].model());
        assert(objects@[i as int].wf() && objects@[j as int].wf());
        if j != i && objects[i].index_bounds.intersects(objects[j].index_bounds) {
            assert(overlaps_at(things, i - from));
            return true;
        }
        j = j + 1;
    }
    false
}

/// The identifiers of the objects, from `from` on, that overlap another of them.
pub fn overlapping_object_uuids(objects: &Vec<SceneObject>, from: usize) -> (r: Vec<String>)
    requires
        forall|i: int| 0 <= i < objects@.len() ==> (#[trigger] objects@[i]).wf(),
        from <= objects@.len(),
    ensures
        forall|uuid: Seq<char>| #[trigger]
            crate::text::views(r@).contains(uuid) <==> is_overlapping(
                crate::scene_builder::things(objects@).skip(from as int),
                uuid,
            ),
{
    let ghost things = crate::scene_builder::things(objects@).skip(from as int);
    let mut r: Vec<String> = Vec::new();
    let mut i: usize = from;
    while i < objects.len()
        invariant
            from <= i <= objects@.len(),
            things == crate::scene_builder::things(objects@).skip(from as int),
            forall|i: int| 0 <= i < objects@.len() ==> (#[trigger] objects@[i]).wf(),
            forall|k: int|
                0 <= k < i - from && overlaps_at(things, k) ==> crate::text::views(r@).contains(
                    (#[trigger] things[k]).uuid,
                ),
            forall|k: int|
                0 <= k < r@.len() ==> is_overlapping(things, (#[trigger] r@[k])@),
        decreases objects@.len() - i,
    {
        let ghost before = crate::text::views(r@);
        assert(things[i - from] == objects@[i as int].model());
        if overlaps_another(objects, from, i) {
            r.push(objects[i].uuid.clone());
            proof {
                let now = crate::text::views(r@);
                let added = things[i - from].uuid;
                assert(now =~= before.push(added));
                assert forall|k: int|
                    0 <= k < i + 1 - from && overlaps_at(things, k) implies now.contains(
                    (#[trigger] things[k]).uuid,
                ) by {
                    if k < i - from {
                        let p = choose|p: int|
                            0 <= p < before.len() && before[p] == things[k].uuid;
                        assert(now[p] == things[k].uuid);
                    } else {
                        assert(now[before.len() as int] == added);
                    }
                }
            }
        }
        i = i + 1;
    }
    proof {
        assert forall|uuid: Seq<char>| #[trigger]
            crate::text::views(r@).contains(uuid) <==> is_overlapping(things, uuid) by {
            let now = crate::text::views(r@);
            if now.contains(uuid) {
                let k = choose|k: int| 0 <= k < now.len() && now[k] == uuid;
                assert(r@[k]@ == uuid);
            }
            if is_overlapping(things, uuid) {
                let k = choose|k: int|
                    0 <= k < things.len() && (#[trigger] things[k]).uuid == uuid && overlaps_at(
                        things,
                        k,
                    );
                assert(now.contains(things[k].uuid));
            }
        }
    }
    r
}

impl crate::scene_builder::Picture {
    /// The picture with the outlines of the first `n` sheets.
    pub open spec fn outlines(
        self,
        sheets: Seq<crate::sexp::Sexp>,
        n: nat,
    ) -> crate::scene_builder::Picture
        decreases n,
    {
        if n == 0 {
            self
        } else {
            self.outlines(sheets, (n - 1) as nat).with(
                crate::label_drawing::sheet_outline(sheets[n - 1]),
            )
        }
    }

    /// The picture with those of the first `n` symbols drawn once more that overlap another.
    pub open spec fn overlapping_again<F: Fn(Query) -> Reply>(
        self,
        f: F,
        nodes: Seq<crate::sexp::Sexp>,
        libraries: Seq<crate::sexp::Sexp>,
        symbols: Seq<crate::scene_builder::Thing>,
        n: nat,
    ) -> crate::scene_builder::Picture
        decreases n,
    {
        if n == 0 {
            self
        } else {
            let before = self.overlapping_again(f, nodes, libraries, symbols, (n - 1) as nat);
            match nodes[n - 1].first_text("uuid"@) {
                Some(uuid) => if is_overlapping(symbols, uuid) {
                    before.symbol_again(f, nodes[n - 1], libraries)
                } else {
                    before
                },
                None => before,
            }
        }
    }

    /// The picture with a whole document: sheets, symbols, the other items, what overlapping
    /// symbols hide, and junctions.
    pub open spec fn document<F: Fn(Query) -> Reply>(
        self,
        f: F,
        root: crate::sexp::Sexp,
        svg: Option<Seq<char>>,
        ranks: Ranks,
    ) -> crate::scene_builder::Picture {
        let libraries = crate::attachment::libraries_of(root);
        let nodes = root.tagged("symbol"@);
        let sheets = sheets_in_order(root);
        let sheeted = self.outlines(sheets, sheets.len()).items(
            f,
            Item::Sheet,
            sheets,
            libraries,
        );
        let placed = sheeted.items(
            f,
            Item::Symbol,
            arranged(nodes, ranks.things, ranks.plot, svg, 0),
            libraries,
        );
        let again = arranged(nodes, ranks.things, ranks.redraw, svg, 1);
        placed.annotations(f, root).overlapping_again(
            f,
            again,
            libraries,
            placed.things.skip(sheeted.things.len() as int),
            again.len(),
        ).all(f, Item::Junction, root, "junction"@)
    }
}

proof fn lemma_things_grow<F: Fn(Query) -> Reply>(
    p: crate::scene_builder::Picture,
    f: F,
    item: Item,
    nodes: Seq<crate::sexp::Sexp>,
    libraries: Seq<crate::sexp::Sexp>,
    n: nat,
)
    ensures
        p.things.len() <= p.items_upto(f, item, nodes, libraries, n).things.len(),
    decreases n,
{
    if n > 0 {
        lemma_things_grow(p, f, item, nodes, libraries, (n - 1) as nat);
    }
}

impl SceneBuilder {
    fn draw_outlines(&mut self, sheets: &Vec<&Node>)
        requires
            old(self).wf(),
            wf_nodes(sheets@),
        ensures
            final(self).wf(),
            final(self)@ == old(self)@.outlines(
                crate::sexp::ref_sexps(sheets@),
                sheets@.len(),
            ),
    {
        let ghost before = self@;
        let ghost all = crate::sexp::ref_sexps(sheets@);
        let mut i: usize = 0;
        while i < sheets.len()
            invariant
                i <= sheets@.len(),
                self.wf(),
                wf_nodes(sheets@),
                all == crate::sexp::ref_sexps(sheets@),
                self@ == before.outlines(all, i as nat),
            decreases sheets@.len() - i,
        {
            assert(all[i as int] == sheets@[i as int]@);
            self.draw_sheet_outline(sheets[i]);
            i = i + 1;
        }
    }

    fn draw_overlapping_again<F: Fn(Query) -> Reply + Copy>(
        &mut self,
        f: F,
        nodes: &Vec<&Node>,
        libraries: &Vec<&Node>,
        overlapping: &Vec<String>,
        Ghost(symbols): Ghost<Seq<crate::scene_builder::Thing>>,
    )
        requires
            old(self).wf(),
            crate::plane::is_plane(f),
            wf_nodes(nodes@),
            wf_nodes(libraries@),
            forall|uuid: Seq<char>| #[trigger]
                crate::text::views(overlapping@).contains(uuid) <==> is_overlapping(symbols, uuid),
        ensures
            final(self).wf(),
            final(self)@ == old(self)@.overlapping_again(
                f,
                crate::sexp::ref_sexps(nodes@),
                crate::sexp::ref_sexps(libraries@),
                symbols,
                nodes@.len(),
            ),
    {
        let ghost before = self@;
        let ghost all = crate::sexp::ref_sexps(nodes@);
        let ghost known = crate::sexp::ref_sexps(libraries@);
        let mut i: usize = 0;
        while i < nodes.len()
            invariant
                i <= nodes@.len(),
                self.wf(),
                crate::plane::is_plane(f),
                wf_nodes(nodes@),
                wf_nodes(libraries@),
                all == crate::sexp::ref_sexps(nodes@),
                known == crate::sexp::ref_sexps(libraries@),
                forall|uuid: Seq<char>| #[trigger]
                    crate::text::views(overlapping@).contains(uuid) <==> is_overlapping(
                        symbols,
                        uuid,
                    ),
                self@ == before.overlapping_again(f, all, known, symbols, i as nat),
            decreases nodes@.len() - i,
        {
            assert(all[i as int] == nodes@[i as int]@);
            if let Some(uuid) = child_text(nodes[i], "uuid") {
                if crate::text::has_name(overlapping, uuid) {
                    self.redraw_symbol_fields_and_pins(f, nodes[i], libraries);
                }
            }
            i = i + 1;
        }
    }

    /// Draws a whole document. `svg` is a picture of it that shows in which order its symbols
    /// are drawn, if there is one.
    pub fn draw_document<F: Fn(Query) -> Reply + Copy>(
        &mut self,
        f: F,
        root: &Node,
        source: &str,
        svg: Option<&str>,
    )
        requires
            old(self).wf(),
            crate::plane::is_plane(f),
            root.wf(),
        ensures
            final(self).wf(),
            exists|ranks: Ranks|
                #![trigger is_ranks(ranks, f, root@, source@)]
                is_ranks(ranks, f, root@, source@) && final(self)@ == old(self)@.document(
                    f,
                    root@,
                    crate::sexp::ref_view(svg),
                    ranks,
                ),
    {
        let ghost before = self@;
        let libraries = library_symbols(root);
        let nodes = root.find_all("symbol");
        let ranks = kicad_symbol_ranks(f, root, source, &libraries);
        let symbols = arrange(&nodes, &ranks, &ranks.plot, svg, 0);
        let again = arrange(&nodes, &ranks, &ranks.redraw, svg, 1);
        let sheets = sort_sheets(root);
        self.draw_outlines(&sheets);
        self.draw_items(f, Item::Sheet, &sheets, &libraries);
        let ghost sheeted = self@;
        let first: usize = self.objects.len();
        self.draw_items(f, Item::Symbol, &symbols, &libraries);
        let ghost placed = self@;
        proof {
            let all = crate::sexp::ref_sexps(symbols@);
            let known = crate::sexp::ref_sexps(libraries@);
            lemma_things_grow(sheeted, f, Item::Symbol, all, known, all.len());
        }
        let overlapping = overlapping_object_uuids(&self.objects, first);
        let ghost drawn = placed.things.skip(sheeted.things.len() as int);
        self.draw_annotations(f, root, &libraries);
        self.draw_overlapping_again(f, &again, &libraries, &overlapping, Ghost(drawn));
        self.draw_all(f, Item::Junction, root, "junction", &libraries);
        assert(self@ == before.document(
            f,
            root@,
            crate::sexp::ref_view(svg),
            ranks.model(),
        ));
    }
}

/// What a schematic shows.
pub struct SchematicScene {
    pub width_mm: Double,
    pub height_mm: Double,
    pub builder: SceneBuilder,
}

impl SchematicScene {
    pub open spec fn wf(self) -> bool {
        self.builder.wf()
    }

    /// Turns the expressions of a schematic into what it shows: its page, and its document.
    pub fn from_root<F: Fn(Query) -> Reply + Copy>(
        f: F,
        root: &Node,
        source: &str,
        file_name: Option<&str>,
        svg: Option<&str>,
    ) -> (r: SchematicScene)
        requires
            crate::plane::is_plane(f),
            root.wf(),
            file_name matches Some(name) ==> name@.len() <= u32::MAX,
        ensures
            r.wf(),
            (r.width_mm, r.height_mm) == crate::worksheet::page_mm(root@),
            exists|ranks: Ranks|
                #![trigger is_ranks(ranks, f, root@, source@)]
                is_ranks(ranks, f, root@, source@) && r.builder@ == (
                crate::scene_builder::Picture { shapes: Seq::empty(), things: Seq::empty() }).with(
                    crate::worksheet::page(root@, crate::sexp::ref_view(file_name)),
                ).document(f, root@, crate::sexp::ref_view(svg), ranks),
    {
        let (width_mm, height_mm) = crate::worksheet::page_size(root);
        let mut builder = SceneBuilder::new();
        assert(builder@ =~= crate::scene_builder::Picture {
            shapes: Seq::empty(),
            things: Seq::empty(),
        });
        builder.draw_page(root, file_name);
        builder.draw_document(f, root, source, svg);
        SchematicScene { width_mm, height_mm, builder }
    }

    /// The place of the last object at a point, or no further from it than the tolerance.
    pub open spec fn hit(
        things: Seq<crate::scene_builder::Thing>,
        p: Point,
        tolerance: Double,
        n: nat,
    ) -> Option<int>
        decreases n,
    {
        if n == 0 {
            None
        } else if things[n - 1].bounds.spec_contains(p, tolerance) {
            Some(n - 1)
        } else {
            Self::hit(things, p, tolerance, (n - 1) as nat)
        }
    }

    /// The last object at a point, or no further from it than the tolerance.
    pub fn hit_test(&self, point: Point, tolerance_mm: Double) -> (r: Option<&SceneObject>)
        requires
            self.wf(),
            point.wf(),
            tolerance_mm.wf(),
            tolerance_mm.within(crate::geometry::SPAN as int),
        ensures
            ({
                let things = self.builder@.things;
                match r {
                    Some(object) => Self::hit(things, point, tolerance_mm, things.len()) matches Some(
                        i,
                    ) && 0 <= i < things.len() && things[i] == object.model(),
                    None => Self::hit(things, point, tolerance_mm, things.len()) is None,
                }
            }),
    {
        let ghost things = self.builder@.things;
        let mut n: usize = self.builder.objects.len();
        while n > 0
            invariant
                n <= things.len(),
                things == self.builder@.things,
                self.wf(),
                point.wf(),
                tolerance_mm.wf(),
                tolerance_mm.within(crate::geometry::SPAN as int),
                Self::hit(things, point, tolerance_mm, things.len()) == Self::hit(
                    things,
                    point,
                    tolerance_mm,
                    n as nat,
                ),
            decreases n,
        {
            assert(self.builder.objects@[n - 1].wf());
            assert(things[n - 1] == self.builder.objects@[n - 1].model());
            let object = &self.builder.objects[n - 1];
            if object.bounds.contains(point, tolerance_mm) {
                return Some(object);
            }
            n = n - 1;
        }
        None
    }
}

/// Sheets can be put in the order of their corners.
pub proof fn corners_are_ordered(nodes: Seq<crate::sexp::Sexp>)
    requires
        forall|i: int|
            0 <= i < nodes.len() ==> corner_of(#[trigger] nodes[i]).x.wf() && corner_of(
                nodes[i],
            ).y.wf(),
    ensures
        crate::stl_sort::strict_weak_order(by_corner(nodes)),
{
    lemma_corners(nodes);
}

} // verus!
