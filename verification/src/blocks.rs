use vstd::prelude::*;
use crate::cell::CellView;
use crate::config::gds_file_types::{DataView, GDSDataType, GDSRecord};
use crate::element::{ElementView, InstanceView, ReferenceView};
use crate::library::{distinct_names, LibraryView};
use crate::motion::expansion;
use crate::order::{lemma_write_order_once, write_order};
use crate::path::{Path, PathView};
use crate::polygon::{Polygon, PolygonView};
use crate::text::{Text, TextView};
use crate::element::Reference;
use crate::utils::clock::Timestamp;
use crate::utils::io::{
    characters, head_records, plain, stamps, transformation_records, xy_records, Units,
};
use crate::utils::stream::{as_items, Item, RecordView};
use crate::writer::{
    array_records, cell_items, cells_items, gathered, library_items, path_records,
    polygon_records, shape_items, shapes_items, stream_items, text_records, ToGds,
};

verus! {

/// The names of the structures that the items write: the characters of every record
/// that names a structure, in the order of the records.
pub open spec fn block_names(items: Seq<Item>) -> Seq<Seq<char>>
    decreases items.len(),
{
    if items.len() == 0 {
        Seq::empty()
    } else {
        match items.last() {
            Item::Record(
                RecordView { kind: GDSRecord::StrName, layout, data: DataView::Str(name) },
            ) => block_names(items.drop_last()).push(name),
            _ => block_names(items.drop_last()),
        }
    }
}

/// Whether none of the records names a structure.
pub open spec fn nameless(records: Seq<RecordView>) -> bool {
    forall|i: int| 0 <= i < records.len() ==> (#[trigger] records[i]).kind != GDSRecord::StrName
}

/// Whether none of the items is a record that names a structure.
pub open spec fn unnamed(items: Seq<Item>) -> bool {
    forall|i: int|
        0 <= i < items.len() ==> match #[trigger] items[i] {
            Item::Record(record) => record.kind != GDSRecord::StrName,
            Item::Fault(_) => true,
        }
}

/// The names that one list of items writes after another are the names of the first
/// followed by those of the second.
pub proof fn lemma_names_joined(first: Seq<Item>, second: Seq<Item>)
    ensures
        block_names(first + second) == block_names(first) + block_names(second),
    decreases second.len(),
{
    if second.len() == 0 {
        assert(first + second =~= first);
        assert(block_names(first) + Seq::<Seq<char>>::empty() =~= block_names(first));
    } else {
        assert((first + second).drop_last() =~= first + second.drop_last());
        assert((first + second).last() == second.last());
        lemma_names_joined(first, second.drop_last());
        let before = block_names(second.drop_last());
        match second.last() {
            Item::Record(
                RecordView { kind: GDSRecord::StrName, layout, data: DataView::Str(name) },
            ) => {
                assert((block_names(first) + before).push(name) =~= block_names(first)
                    + before.push(name));
            },
            _ => {},
        }
    }
}

/// Items none of which names a structure write no names.
pub proof fn lemma_unnamed(items: Seq<Item>)
    requires
        unnamed(items),
    ensures
        block_names(items) == Seq::<Seq<char>>::empty(),
    decreases items.len(),
{
    if items.len() > 0 {
        assert forall|i: int| 0 <= i < items.drop_last().len() implies match (
        #[trigger] items.drop_last()[i]) {
            Item::Record(record) => record.kind != GDSRecord::StrName,
            Item::Fault(_) => true,
        } by {
            assert(items.drop_last()[i] == items[i]);
        }
        lemma_unnamed(items.drop_last());
        let last = items[items.len() - 1];
        assert(match last {
            Item::Record(record) => record.kind != GDSRecord::StrName,
            Item::Fault(_) => true,
        });
    }
}

/// Two lists of items none of which names a structure make one such list.
pub proof fn lemma_unnamed_joined(first: Seq<Item>, second: Seq<Item>)
    requires
        unnamed(first),
        unnamed(second),
    ensures
        unnamed(first + second),
{
    assert forall|i: int| 0 <= i < (first + second).len() implies match (
    #[trigger] (first + second)[i]) {
        Item::Record(record) => record.kind != GDSRecord::StrName,
        Item::Fault(_) => true,
    } by {
        if i < first.len() {
            assert((first + second)[i] == first[i]);
        } else {
            assert((first + second)[i] == second[i - first.len()]);
        }
    }
}

/// Records none of which names a structure are items none of which does.
pub proof fn lemma_nameless_items(records: Seq<RecordView>)
    requires
        nameless(records),
    ensures
        unnamed(as_items(records)),
{
    assert forall|i: int| 0 <= i < as_items(records).len() implies match (
    #[trigger] as_items(records)[i]) {
        Item::Record(record) => record.kind != GDSRecord::StrName,
        Item::Fault(_) => true,
    } by {
        assert(records[i].kind != GDSRecord::StrName);
    }
}

/// Two lists of records none of which names a structure make one such list.
pub proof fn lemma_nameless_joined(first: Seq<RecordView>, second: Seq<RecordView>)
    requires
        nameless(first),
        nameless(second),
    ensures
        nameless(first + second),
{
    assert forall|i: int| 0 <= i < (first + second).len() implies (
    #[trigger] (first + second)[i]).kind != GDSRecord::StrName by {
        if i < first.len() {
            assert((first + second)[i] == first[i]);
        } else {
            assert((first + second)[i] == second[i - first.len()]);
        }
    }
}

/// Coordinate records name no structure.
pub proof fn lemma_xy_nameless(points: Seq<crate::point::Point>)
    ensures
        nameless(xy_records(points)),
    decreases points.len(),
{
    if points.len() > crate::config::gds_file_types::MAX_POLYGON_POINTS {
        let rest = points.skip(crate::config::gds_file_types::MAX_POLYGON_POINTS as int);
        lemma_xy_nameless(rest);
        lemma_nameless_joined(
            seq![
                crate::utils::io::xy_record(
                    points.take(crate::config::gds_file_types::MAX_POLYGON_POINTS as int),
                ),
            ],
            xy_records(rest),
        );
    }
}

/// The records of a polygon name no structure.
pub proof fn lemma_polygon_unnamed(polygon: PolygonView)
    ensures
        unnamed(Polygon::items(polygon)),
{
    lemma_xy_nameless(polygon.points);
    let records = polygon_records(polygon);
    assert forall|i: int| 0 <= i < records.len() implies (#[trigger] records[i]).kind
        != GDSRecord::StrName by {
        let points = xy_records(polygon.points);
        if 3 <= i < 3 + points.len() {
            assert(records[i] == points[i - 3]);
        }
    }
    lemma_nameless_items(records);
}

/// The records of a path name no structure.
pub proof fn lemma_path_unnamed(path: PathView)
    ensures
        unnamed(Path::items(path)),
{
    if path.points.len() >= 2 {
        lemma_xy_nameless(path.points);
        let style = match path.path_type {
            Some(style) => seq![
                crate::utils::io::short(
                    GDSRecord::PathType,
                    GDSDataType::TwoByteSignedInteger,
                    crate::utils::bytes::low_word(style.code() as int),
                ),
            ],
            None => Seq::<RecordView>::empty(),
        };
        let width = match path.width {
            Some(width) => seq![crate::writer::width_record(width)],
            None => Seq::<RecordView>::empty(),
        };
        let head = seq![
            plain(GDSRecord::Path),
            crate::utils::io::short(
                GDSRecord::Layer,
                GDSDataType::TwoByteSignedInteger,
                crate::utils::bytes::low_word(path.layer as int),
            ),
            crate::utils::io::short(
                GDSRecord::DataType,
                GDSDataType::TwoByteSignedInteger,
                crate::utils::bytes::low_word(path.data_type as int),
            ),
        ];
        let tail = seq![plain(GDSRecord::EndEl)];
        lemma_nameless_joined(head, style);
        lemma_nameless_joined(head + style, width);
        lemma_nameless_joined(head + style + width, xy_records(path.points));
        lemma_nameless_joined(head + style + width + xy_records(path.points), tail);
        lemma_nameless_items(path_records(path));
    }
}

/// The records of a transformation name no structure.
pub proof fn lemma_transformation_nameless(
    angle: crate::number::Real,
    magnification: crate::number::Real,
    x_reflection: bool,
)
    ensures
        nameless(transformation_records(angle, magnification, x_reflection)),
{
    let records = transformation_records(angle, magnification, x_reflection);
    assert forall|i: int| 0 <= i < records.len() implies (#[trigger] records[i]).kind
        != GDSRecord::StrName by {
        let kind = records[i].kind;
        assert(kind == GDSRecord::STrans || kind == GDSRecord::Mag || kind == GDSRecord::Angle);
    }
}

/// The records of a text name no structure.
pub proof fn lemma_text_unnamed(text: TextView)
    ensures
        unnamed(Text::items(text)),
{
    let head = seq![
        plain(GDSRecord::Text),
        crate::utils::io::short(
            GDSRecord::Layer,
            GDSDataType::TwoByteSignedInteger,
            crate::utils::bytes::low_word(text.layer as int),
        ),
        crate::utils::io::short(GDSRecord::TextType, GDSDataType::TwoByteSignedInteger, 0),
        crate::utils::io::short(
            GDSRecord::Presentation,
            GDSDataType::BitArray,
            crate::text::presentation_flags(text.vertical_presentation, text.horizontal_presentation)
                as u16,
        ),
    ];
    let turn = transformation_records(text.angle, text.magnification, text.x_reflection);
    let place = xy_records(seq![text.origin]);
    let tail = seq![characters(GDSRecord::String, text.text), plain(GDSRecord::EndEl)];
    lemma_transformation_nameless(text.angle, text.magnification, text.x_reflection);
    lemma_xy_nameless(seq![text.origin]);
    lemma_nameless_joined(head, turn);
    lemma_nameless_joined(head + turn, place);
    lemma_nameless_joined(head + turn + place, tail);
    lemma_nameless_items(text_records(text));
}

/// The records of a reference to a cell name no structure: they name the cell that is
/// placed, which is another kind of record.
pub proof fn lemma_array_unnamed(name: Seq<char>, reference: ReferenceView)
    ensures
        unnamed(as_items(array_records(name, reference))),
{
    let grid = reference.grid;
    let head = seq![plain(GDSRecord::ARef), characters(GDSRecord::SName, name)];
    let turn = transformation_records(grid.angle, grid.magnification, grid.x_reflection);
    let counts = seq![crate::writer::colrow_record(grid.columns, grid.rows)];
    let corners = xy_records(seq![grid.origin, grid.corner_x, grid.corner_y]);
    let tail = seq![plain(GDSRecord::EndEl)];
    lemma_transformation_nameless(grid.angle, grid.magnification, grid.x_reflection);
    lemma_xy_nameless(seq![grid.origin, grid.corner_x, grid.corner_y]);
    lemma_nameless_joined(head, turn);
    lemma_nameless_joined(head + turn, counts);
    lemma_nameless_joined(head + turn + counts, corners);
    lemma_nameless_joined(head + turn + counts + corners, tail);
    lemma_nameless_items(array_records(name, reference));
}

/// What is written for elements that references stand for names no structure.
pub proof fn lemma_shapes_unnamed(list: Seq<ElementView>)
    ensures
        unnamed(shapes_items(list)),
    decreases list.len(),
{
    if list.len() > 0 {
        lemma_shapes_unnamed(list.drop_last());
        match list.last() {
            ElementView::Polygon(polygon) => lemma_polygon_unnamed(polygon),
            ElementView::Path(path) => lemma_path_unnamed(path),
            ElementView::Text(text) => lemma_text_unnamed(text),
            ElementView::Reference(reference) => match reference.instance {
                InstanceView::Cell(name) => lemma_array_unnamed(name, reference),
                InstanceView::Element(_) => {},
            },
        }
        lemma_unnamed_joined(shapes_items(list.drop_last()), shape_items(list.last()));
    }
}

/// What is written for a reference names no structure.
pub proof fn lemma_reference_unnamed(reference: ReferenceView)
    ensures
        unnamed(Reference::items(reference)),
{
    match reference.instance {
        InstanceView::Cell(name) => lemma_array_unnamed(name, reference),
        InstanceView::Element(_) => {
            if let Some(list) = expansion(reference) {
                lemma_shapes_unnamed(list);
            }
        },
    }
}

/// What is written for a list of things of which none names a structure names none.
pub proof fn lemma_gathered_unnamed<T: ToGds>(list: Seq<T::V>)
    requires
        forall|i: int| 0 <= i < list.len() ==> unnamed(T::items(#[trigger] list[i])),
    ensures
        unnamed(gathered::<T>(list)),
    decreases list.len(),
{
    if list.len() > 0 {
        assert forall|i: int| 0 <= i < list.drop_last().len() implies unnamed(
            T::items(#[trigger] list.drop_last()[i]),
        ) by {
            assert(list.drop_last()[i] == list[i]);
        }
        lemma_gathered_unnamed::<T>(list.drop_last());
        assert(unnamed(T::items(list[list.len() - 1])));
        lemma_unnamed_joined(gathered::<T>(list.drop_last()), T::items(list.last()));
    }
}

/// What a cell holds is written without naming a structure.
pub proof fn lemma_contents_unnamed(cell: CellView)
    ensures
        unnamed(
            gathered::<Path>(cell.paths) + gathered::<Polygon>(cell.polygons) + gathered::<Text>(
                cell.texts,
            ) + gathered::<Reference>(cell.references),
        ),
{
    let c = gathered::<Path>(cell.paths);
    let d = gathered::<Polygon>(cell.polygons);
    let e = gathered::<Text>(cell.texts);
    let f = gathered::<Reference>(cell.references);
    assert forall|i: int| 0 <= i < cell.paths.len() implies unnamed(
        Path::items(#[trigger] cell.paths[i]),
    ) by {
        lemma_path_unnamed(cell.paths[i]);
    }
    assert forall|i: int| 0 <= i < cell.polygons.len() implies unnamed(
        Polygon::items(#[trigger] cell.polygons[i]),
    ) by {
        lemma_polygon_unnamed(cell.polygons[i]);
    }
    assert forall|i: int| 0 <= i < cell.texts.len() implies unnamed(
        Text::items(#[trigger] cell.texts[i]),
    ) by {
        lemma_text_unnamed(cell.texts[i]);
    }
    assert forall|i: int| 0 <= i < cell.references.len() implies unnamed(
        Reference::items(#[trigger] cell.references[i]),
    ) by {
        lemma_reference_unnamed(cell.references[i]);
    }
    lemma_gathered_unnamed::<Path>(cell.paths);
    lemma_gathered_unnamed::<Polygon>(cell.polygons);
    lemma_gathered_unnamed::<Text>(cell.texts);
    lemma_gathered_unnamed::<Reference>(cell.references);
    lemma_unnamed_joined(c, d);
    lemma_unnamed_joined(c + d, e);
    lemma_unnamed_joined(c + d + e, f);
}

/// The two records that open a structure write its name.
pub proof fn lemma_opening_named(name: Seq<char>, timestamp: Timestamp)
    ensures
        block_names(
            as_items(seq![stamps(GDSRecord::BgnStr, timestamp), characters(GDSRecord::StrName, name)]),
        ) == seq![name],
{
    let a = as_items(
        seq![stamps(GDSRecord::BgnStr, timestamp), characters(GDSRecord::StrName, name)],
    );
    let first = seq![Item::Record(stamps(GDSRecord::BgnStr, timestamp))];
    assert(a.drop_last() =~= first);
    assert(a.last() == Item::Record(characters(GDSRecord::StrName, name)));
    assert(first.drop_last() =~= Seq::<Item>::empty());
    assert(block_names(first.drop_last()) =~= Seq::<Seq<char>>::empty());
    assert(block_names(first) =~= Seq::<Seq<char>>::empty());
    assert(Seq::<Seq<char>>::empty().push(name) =~= seq![name]);
}

/// A cell is written as one structure that bears its name, whatever it holds.
pub proof fn lemma_cell_named(cell: CellView, timestamp: Timestamp)
    ensures
        block_names(cell_items(cell, timestamp)) == seq![cell.name],
{
    let a = as_items(
        seq![stamps(GDSRecord::BgnStr, timestamp), characters(GDSRecord::StrName, cell.name)],
    );
    let held = gathered::<Path>(cell.paths) + gathered::<Polygon>(cell.polygons) + gathered::<Text>(
        cell.texts,
    ) + gathered::<Reference>(cell.references);
    let g = seq![Item::Record(plain(GDSRecord::EndStr))];
    lemma_contents_unnamed(cell);
    lemma_opening_named(cell.name, timestamp);
    lemma_unnamed(held);
    lemma_unnamed(g);
    lemma_names_joined(a, held);
    lemma_names_joined(a + held, g);
    assert(cell_items(cell, timestamp) =~= a + held + g);
    assert(seq![cell.name] + Seq::<Seq<char>>::empty() + Seq::<Seq<char>>::empty() =~= seq![
        cell.name,
    ]);
}

/// The names of the cells at the given places, in the order of the places.
pub open spec fn names_at(cells: Seq<CellView>, order: Seq<int>) -> Seq<Seq<char>> {
    Seq::new(order.len(), |k: int| cells[order[k]].name)
}

/// Cells are written as one structure each, in order.
pub proof fn lemma_cells_named(cells: Seq<CellView>, order: Seq<int>, timestamp: Timestamp)
    ensures
        block_names(cells_items(cells, order, timestamp)) == names_at(cells, order),
    decreases order.len(),
{
    if order.len() == 0 {
        assert(names_at(cells, order) =~= Seq::<Seq<char>>::empty());
    } else {
        lemma_cells_named(cells, order.drop_last(), timestamp);
        lemma_cell_named(cells[order.last()], timestamp);
        lemma_names_joined(
            cells_items(cells, order.drop_last(), timestamp),
            cell_items(cells[order.last()], timestamp),
        );
        assert(names_at(cells, order.drop_last()) + seq![cells[order.last()].name] =~= names_at(
            cells,
            order,
        ));
    }
}

/// A stream holds one structure for each of the places that it is written from, in the
/// order of the places, under the name of the cell at the place.
pub proof fn lemma_stream_named(
    library: LibraryView,
    order: Seq<int>,
    units: Units,
    timestamp: Timestamp,
)
    ensures
        block_names(stream_items(library, order, units, timestamp)) == names_at(
            library.cells,
            order,
        ),
{
    let cells = library.cells;
    let head = as_items(head_records(library.name, units, timestamp));
    let body = cells_items(cells, order, timestamp);
    let tail = seq![Item::Record(plain(GDSRecord::EndLib))];
    let names = names_at(cells, order);
    lemma_nameless_items(head_records(library.name, units, timestamp));
    lemma_unnamed(head);
    lemma_unnamed(tail);
    lemma_cells_named(cells, order, timestamp);
    lemma_names_joined(head, body);
    lemma_names_joined(head + body, tail);
    assert(Seq::<Seq<char>>::empty() + names + Seq::<Seq<char>>::empty() =~= names);
    assert(stream_items(library, order, units, timestamp) == head + body + tail);
}

/// A cell written as a stream of its own comes first in it, and every cell that is
/// reached from it follows once.
pub proof fn lemma_cell_stream_named(
    cells: Seq<CellView>,
    cell: CellView,
    units: Units,
    timestamp: Timestamp,
)
    requires
        distinct_names(cells),
    ensures
        ({
            let held = crate::library::placed(cells, cell);
            let order = crate::order::reached_from(held, crate::library::place_of(held, cell.name));
            let names = block_names(crate::writer::cell_stream(cells, cell, units, timestamp));
            &&& names == names_at(held, order)
            &&& names.len() >= 1
            &&& names[0] == cell.name
            &&& names.no_duplicates()
        }),
{
    let held = crate::library::placed(cells, cell);
    let top = crate::library::place_of(held, cell.name);
    let order = crate::order::reached_from(held, top);
    let names = names_at(held, order);
    crate::library::lemma_placed_distinct(cells, cell);
    crate::library::lemma_place_of(cells, cell.name);
    if crate::library::has_name(cells, cell.name) {
        assert(held[crate::library::place_of(cells, cell.name)].name == cell.name);
    } else {
        assert(held[cells.len() as int].name == cell.name);
    }
    crate::library::lemma_place_of(held, cell.name);
    crate::order::lemma_reached_once(held, top);
    lemma_stream_named(
        LibraryView { name: "library"@, cells: held },
        order,
        units,
        timestamp,
    );
    assert forall|i: int, j: int| 0 <= i < names.len() && 0 <= j < names.len() && i
        != j implies names[i] != names[j] by {
        assert(order[i] != order[j]);
        if order[i] < order[j] {
            assert(held[order[i]].name != held[order[j]].name);
        } else {
            assert(held[order[j]].name != held[order[i]].name);
        }
    }
}

/// Every cell is written once: the structures that a library is written as bear the
/// names of its cells in the order of writing, one structure for each cell, whatever the
/// cells hold and however many references name a cell. Where no two cells have the same
/// name, no name is written twice, and none is left out.
pub proof fn lemma_every_cell_once(library: LibraryView, units: Units, timestamp: Timestamp)
    ensures
        block_names(library_items(library, units, timestamp)) == names_at(
            library.cells,
            write_order(library.cells),
        ),
        block_names(library_items(library, units, timestamp)).len() == library.cells.len(),
        forall|place: int|
            0 <= place < library.cells.len() ==> block_names(
                library_items(library, units, timestamp),
            ).contains(#[trigger] library.cells[place].name),
        distinct_names(library.cells) ==> block_names(
            library_items(library, units, timestamp),
        ).no_duplicates(),
{
    let cells = library.cells;
    let order = write_order(cells);
    let names = names_at(cells, order);
    lemma_write_order_once(cells);
    lemma_stream_named(library, order, units, timestamp);
    assert forall|place: int| 0 <= place < cells.len() implies names.contains(
        #[trigger] cells[place].name,
    ) by {
        assert(order.contains(place));
        let k = choose|k: int| 0 <= k < order.len() && order[k] == place;
        assert(names[k] == cells[place].name);
    }
    if distinct_names(cells) {
        assert forall|i: int, j: int| 0 <= i < names.len() && 0 <= j < names.len() && i
            != j implies names[i] != names[j] by {
            assert(order[i] != order[j]);
            if order[i] < order[j] {
                assert(cells[order[i]].name != cells[order[j]].name);
            } else {
                assert(cells[order[j]].name != cells[order[i]].name);
            }
        }
    }
}

} // verus!
