//! The machine-readable workflow export: the timeline as a pretty JSON
//! array of objects, written by `serde_json`.

use vstd::prelude::*;
use crate::unlogged::{Gap, gap_length_fits};
use crate::workflow::{
    EntryView, ItemView, TimelineItem, WorkflowEntry, entries_view, length_fits, lengths_fit,
    timeline, timeline_items,
};

verus! {

/// A JSON value of an exported field.
pub enum JsonScalar {
    Text(String),
    Integer(i64),
    Null,
}

/// The value of a `JsonScalar`.
pub enum ScalarView {
    Text(Seq<char>),
    Integer(i64),
    Null,
}

impl View for JsonScalar {
    type V = ScalarView;

    open spec fn view(&self) -> ScalarView {
        match self {
            JsonScalar::Text(t) => ScalarView::Text(t@),
            JsonScalar::Integer(n) => ScalarView::Integer(*n),
            JsonScalar::Null => ScalarView::Null,
        }
    }
}

/// A named field of an exported object.
pub struct JsonField {
    pub key: String,
    pub value: JsonScalar,
}

impl View for JsonField {
    type V = (Seq<char>, ScalarView);

    open spec fn view(&self) -> (Seq<char>, ScalarView) {
        (self.key@, self.value@)
    }
}

/// The fields of an object, in the order given.
pub open spec fn object_view(fields: Seq<JsonField>) -> Seq<(Seq<char>, ScalarView)> {
    fields.map_values(|f: JsonField| f@)
}

/// The objects of an array, in the order given.
pub open spec fn objects_view(objects: Seq<Vec<JsonField>>) -> Seq<Seq<(Seq<char>, ScalarView)>> {
    objects.map_values(|o: Vec<JsonField>| object_view(o@))
}

/// `serde_json::to_string_pretty`'s text of an array holding one object per
/// given field list.
pub uninterp spec fn pretty_json(objects: Seq<Seq<(Seq<char>, ScalarView)>>) -> Seq<char>;

/// Writes the objects with `serde_json::to_string_pretty`, each field list
/// turned into a `serde_json::Map` (a later field of the same key replaces
/// an earlier one) and each scalar into the `serde_json::Value` of the same
/// kind. The text is what serde_json makes of these values alone; it is
/// named, not spelled out. Serialising values of these types cannot fail.
#[verifier::external_body]
fn json_text(objects: &Vec<Vec<JsonField>>) -> (text: String)
    ensures
        text@ == pretty_json(objects_view(objects@)),
{
    let array: Vec<serde_json::Value> = objects.iter().map(|fields| serde_json::Value::Object(
        fields.iter().map(|f| (f.key.clone(), match &f.value {
            JsonScalar::Text(t) => serde_json::Value::from(t.as_str()),
            JsonScalar::Integer(n) => serde_json::Value::from(*n),
            JsonScalar::Null => serde_json::Value::Null,
        })).collect(),
    )).collect();
    serde_json::to_string_pretty(&array).unwrap_or_default()
}

/// The exported object of a workflow entry: its application, its title (or
/// null), its start and end, and its length in seconds.
pub open spec fn entry_object(e: EntryView) -> Seq<(Seq<char>, ScalarView)> {
    seq![
        ("app_id"@, ScalarView::Text(e.app_id)),
        (
            "title"@,
            match e.title {
                Some(t) => ScalarView::Text(t),
                None => ScalarView::Null,
            },
        ),
        ("started_at"@, ScalarView::Integer(e.started_at)),
        ("ended_at"@, ScalarView::Integer(e.ended_at)),
        ("duration_seconds"@, ScalarView::Integer((e.ended_at - e.started_at) as i64)),
    ]
}

/// The plain export: one object per entry, in the entries' order.
pub open spec fn workflow_objects(entries: Seq<EntryView>) -> Seq<Seq<(Seq<char>, ScalarView)>> {
    entries.map_values(|e: EntryView| entry_object(e))
}

/// The exported object of a timeline row: an entry's object tagged
/// `active`, or a gap tagged `unlogged` with its start, end and length and
/// neither application nor title.
pub open spec fn item_object(item: ItemView) -> Seq<(Seq<char>, ScalarView)> {
    match item {
        ItemView::Active(e) => entry_object(e).push(("kind"@, ScalarView::Text("active"@))),
        ItemView::Unlogged(g) => seq![
            ("kind"@, ScalarView::Text("unlogged"@)),
            ("started_at"@, ScalarView::Integer(g.started_at)),
            ("ended_at"@, ScalarView::Integer(g.ended_at)),
            ("duration_seconds"@, ScalarView::Integer((g.ended_at - g.started_at) as i64)),
        ],
    }
}

/// The verbose export: one object per timeline row, in timeline order.
pub open spec fn verbose_objects(items: Seq<ItemView>) -> Seq<Seq<(Seq<char>, ScalarView)>> {
    items.map_values(|i: ItemView| item_object(i))
}

/// The fields of an entry's exported object.
fn entry_fields(entry: &WorkflowEntry) -> (fields: Vec<JsonField>)
    requires
        length_fits(entry@),
    ensures
        object_view(fields@) == entry_object(entry@),
{
    let title = match &entry.title {
        Some(t) => JsonScalar::Text(t.clone()),
        None => JsonScalar::Null,
    };
    let length = entry.ended_at - entry.started_at;
    let fields = vec![
        JsonField { key: "app_id".to_owned(), value: JsonScalar::Text(entry.app_id.clone()) },
        JsonField { key: "title".to_owned(), value: title },
        JsonField { key: "started_at".to_owned(), value: JsonScalar::Integer(entry.started_at) },
        JsonField { key: "ended_at".to_owned(), value: JsonScalar::Integer(entry.ended_at) },
        JsonField {
            key: "duration_seconds".to_owned(),
            value: JsonScalar::Integer(length),
        },
    ];
    assert(object_view(fields@) =~= entry_object(entry@));
    fields
}

/// The fields of a gap's exported object.
fn gap_fields(gap: &Gap) -> (fields: Vec<JsonField>)
    requires
        gap_length_fits(*gap),
    ensures
        object_view(fields@) == item_object(ItemView::Unlogged(*gap)),
{
    let length = gap.ended_at - gap.started_at;
    let fields = vec![
        JsonField { key: "kind".to_owned(), value: JsonScalar::Text("unlogged".to_owned()) },
        JsonField { key: "started_at".to_owned(), value: JsonScalar::Integer(gap.started_at) },
        JsonField { key: "ended_at".to_owned(), value: JsonScalar::Integer(gap.ended_at) },
        JsonField {
            key: "duration_seconds".to_owned(),
            value: JsonScalar::Integer(length),
        },
    ];
    assert(object_view(fields@) =~= item_object(ItemView::Unlogged(*gap)));
    fields
}

/// The plain JSON export of the entries.
pub fn render_workflow_json(entries: &Vec<WorkflowEntry>) -> (text: String)
    requires
        lengths_fit(entries_view(entries@)),
    ensures
        text@ == pretty_json(workflow_objects(entries_view(entries@))),
{
    let ghost ev = entries_view(entries@);
    let mut objects: Vec<Vec<JsonField>> = Vec::new();
    let mut i: usize = 0;
    while i < entries.len()
        invariant
            i <= entries.len(),
            ev == entries_view(entries@),
            lengths_fit(ev),
            objects_view(objects@) == workflow_objects(ev).take(i as int),
        decreases entries.len() - i,
    {
        assert(length_fits(ev[i as int]));
        let fields = entry_fields(&entries[i]);
        let ghost row = object_view(fields@);
        assert(row == workflow_objects(ev)[i as int]);
        let ghost prev = objects@;
        objects.push(fields);
        assert(objects_view(objects@) =~= objects_view(prev).push(row));
        assert(objects_view(objects@) =~= workflow_objects(ev).take(i + 1));
        i = i + 1;
    }
    assert(workflow_objects(ev).take(entries.len() as int) =~= workflow_objects(ev));
    json_text(&objects)
}

/// Every row of the timeline of these entries and gaps is one of them.
proof fn lemma_items_fit(entries: Seq<EntryView>, gaps: Seq<Gap>)
    requires
        lengths_fit(entries),
        forall|i: int| 0 <= i < gaps.len() ==> #[trigger] gap_length_fits(gaps[i]),
    ensures
        forall|k: int| 0 <= k < timeline_items(entries, gaps).len() ==> match #[trigger] timeline_items(
            entries,
            gaps,
        )[k] {
            ItemView::Active(e) => length_fits(e),
            ItemView::Unlogged(g) => gap_length_fits(g),
        },
{
    let all = crate::workflow::timeline_keys(entries, gaps);
    assert forall|k: int| 0 <= k < all.len() implies (#[trigger] all[k]).2 < entries.len()
        + gaps.len() by {}
    crate::workflow::lemma_sorted_keys_in_range(all, (entries.len() + gaps.len()) as int);
}

/// The verbose JSON export: the timeline of entries and gaps, each row
/// tagged with its kind.
pub fn render_verbose_json(entries: &Vec<WorkflowEntry>, gaps: &Vec<Gap>) -> (text: String)
    requires
        entries.len() + gaps.len() <= usize::MAX,
        lengths_fit(entries_view(entries@)),
        forall|i: int| 0 <= i < gaps@.len() ==> #[trigger] gap_length_fits(gaps@[i]),
    ensures
        text@ == pretty_json(verbose_objects(timeline_items(entries_view(entries@), gaps@))),
{
    let ghost expected = timeline_items(entries_view(entries@), gaps@);
    proof {
        lemma_items_fit(entries_view(entries@), gaps@);
    }
    let items = timeline(entries, gaps);
    assert(items@.len() == expected.len()) by {
        assert(items@.map_values(|t: TimelineItem| t@).len() == items@.len());
    }
    let mut objects: Vec<Vec<JsonField>> = Vec::new();
    let mut i: usize = 0;
    while i < items.len()
        invariant
            i <= items.len(),
            items@.len() == expected.len(),
            items@.map_values(|t: TimelineItem| t@) == expected,
            forall|k: int| 0 <= k < expected.len() ==> match #[trigger] expected[k] {
                ItemView::Active(e) => length_fits(e),
                ItemView::Unlogged(g) => gap_length_fits(g),
            },
            objects_view(objects@) == verbose_objects(expected).take(i as int),
        decreases items.len() - i,
    {
        assert(items@[i as int]@ == expected[i as int]) by {
            assert(items@.map_values(|t: TimelineItem| t@)[i as int] == items@[i as int]@);
        }
        let fields = match &items[i] {
            TimelineItem::Active(e) => {
                let mut f = entry_fields(e);
                f.push(JsonField { key: "kind".to_owned(), value: JsonScalar::Text("active".to_owned()) });
                assert(object_view(f@) =~= item_object(expected[i as int]));
                f
            },
            TimelineItem::Unlogged(g) => gap_fields(g),
        };
        let ghost row = object_view(fields@);
        assert(row == verbose_objects(expected)[i as int]);
        let ghost prev = objects@;
        objects.push(fields);
        assert(objects_view(objects@) =~= objects_view(prev).push(row));
        assert(objects_view(objects@) =~= verbose_objects(expected).take(i + 1));
        i = i + 1;
    }
    assert(verbose_objects(expected).take(items.len() as int) =~= verbose_objects(expected));
    json_text(&objects)
}

} // verus!
