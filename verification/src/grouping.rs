//! How the classes rows of an extraction stand: in blocks, one for each
//! mutation row and in the order of the mutation rows. The block of a
//! mutation row holds the classes rows of the land-use list of the parcel
//! that the mutation row was read from, in the order of that list, under the
//! identifier of the mutation row.

use vstd::prelude::*;
use serde_json::Value;
use crate::ids::{lemma_nth_id_adds, lemma_nth_id_steps, nth_id};
use crate::json::{items_at, json_is_object, json_member, number_at, unsigned_at};
use crate::numbering::{
    continues, lemma_dispositions_continue, lemma_disposition_continues,
    lemma_document_continues, lemma_feature_continues, lemma_parcel_continues,
    lemma_parcels_continue,
};
use crate::tables::{
    class_of, classes_of, mutation_of, Binary64, ClassesView, ExtractError, MutationView,
    SchemaView, SharedView,
};
use crate::transform::{
    shared_of, with_disposition, with_dispositions, with_feature, with_features, with_parcel,
    with_parcels, Extraction,
};

verus! {

/// Whether a land-use entry gives a classes row: it has a surface of at
/// least 1 and a label.
pub open spec fn has_class(entry: Value) -> bool {
    class_of(entry, 0) is Some
}

/// The number of entries of a land-use list that give a classes row.
pub open spec fn kept_entries(entries: Seq<Value>) -> nat
    decreases entries.len(),
{
    if entries.len() == 0 {
        0
    } else {
        kept_entries(entries.drop_last()) + if has_class(entries.last()) {
            1nat
        } else {
            0nat
        }
    }
}

/// A land-use list gives one classes row for each of its entries that has a
/// surface of at least 1 and a label, whatever the identifier: the other
/// entries add no row.
pub proof fn lemma_classes_count(entries: Seq<Value>, id: u64)
    ensures
        classes_of(entries, id).len() == kept_entries(entries),
        kept_entries(entries) <= entries.len(),
    decreases entries.len(),
{
    if entries.len() > 0 {
        lemma_classes_count(entries.drop_last(), id);
    }
}

/// The classes rows of a land-use list keep the order of the list: those of
/// two lists on end are those of the first, then those of the second.
pub proof fn lemma_classes_in_order(first: Seq<Value>, second: Seq<Value>, id: u64)
    ensures
        classes_of(first + second, id) == classes_of(first, id) + classes_of(second, id),
    decreases second.len(),
{
    if second.len() == 0 {
        assert(first + second =~= first);
        assert(classes_of(first, id) + classes_of(second, id) =~= classes_of(first, id));
    } else {
        assert((first + second).drop_last() =~= first + second.drop_last());
        assert((first + second).last() == second.last());
        lemma_classes_in_order(first, second.drop_last(), id);
        let front = classes_of(first, id) + classes_of(second.drop_last(), id);
        match class_of(second.last(), id) {
            Some(row) => {
                assert(front.push(row) =~= classes_of(first, id) + classes_of(
                    second.drop_last(),
                    id,
                ).push(row));
            },
            None => {},
        }
    }
}

/// The classes rows of a run of land-use lists, of which the first belongs
/// to the identifier `start` and each next one to the next identifier: the
/// rows of the first list, then those of the second, and so on.
pub open spec fn blocks(lists: Seq<Seq<Value>>, start: u64) -> Seq<ClassesView>
    decreases lists.len(),
{
    if lists.len() == 0 {
        Seq::empty()
    } else {
        blocks(lists.drop_last(), start) + classes_of(
            lists.last(),
            nth_id(start, (lists.len() - 1) as nat),
        )
    }
}

/// The number of entries of a run of land-use lists that give a classes row.
pub open spec fn total_kept(lists: Seq<Seq<Value>>) -> nat
    decreases lists.len(),
{
    if lists.len() == 0 {
        0
    } else {
        total_kept(lists.drop_last()) + kept_entries(lists.last())
    }
}

/// The blocks of a run of lists hold as many rows as the lists have entries
/// that give one.
pub proof fn lemma_blocks_count(lists: Seq<Seq<Value>>, start: u64)
    ensures
        blocks(lists, start).len() == total_kept(lists),
    decreases lists.len(),
{
    if lists.len() > 0 {
        lemma_blocks_count(lists.drop_last(), start);
        lemma_classes_count(lists.last(), nth_id(start, (lists.len() - 1) as nat));
    }
}

/// The blocks of two runs of lists on end are the blocks of the first, then
/// those of the second under the identifiers that follow.
pub proof fn lemma_blocks_concat(first: Seq<Seq<Value>>, second: Seq<Seq<Value>>, start: u64)
    ensures
        blocks(first + second, start) == blocks(first, start) + blocks(
            second,
            nth_id(start, first.len()),
        ),
    decreases second.len(),
{
    let next = nth_id(start, first.len());
    if second.len() == 0 {
        assert(first + second =~= first);
        assert(blocks(first, start) + blocks(second, next) =~= blocks(first, start));
    } else {
        let whole = first + second;
        assert(whole.drop_last() =~= first + second.drop_last());
        assert(whole.last() == second.last());
        lemma_blocks_concat(first, second.drop_last(), start);
        lemma_nth_id_adds(start, first.len(), (second.len() - 1) as nat);
        let tail = classes_of(second.last(), nth_id(next, (second.len() - 1) as nat));
        assert((blocks(first, start) + blocks(second.drop_last(), next)) + tail =~= blocks(
            first,
            start,
        ) + (blocks(second.drop_last(), next) + tail));
    }
}

/// Whether the mutation row `row` and the land-use list `dcnt` were read
/// from the parcel `parcel`, with the shared parts given.
pub open spec fn read_from(
    row: MutationView,
    dcnt: Seq<Value>,
    parcel: Value,
    shared_props: SharedView,
    valeurfonc: Binary64,
    idmutation: u64,
    schema: SchemaView,
) -> bool {
    &&& json_is_object(parcel)
    &&& items_at(parcel, "dcnt"@) == Some(dcnt)
    &&& mutation_of(parcel, shared_props, valeurfonc, idmutation, row.idg, schema) == Ok::<
        _,
        ExtractError,
    >(row)
}

/// Whether the mutation row `row` and the land-use list `dcnt` were read
/// from one parcel.
pub open spec fn of_one_parcel(row: MutationView, dcnt: Seq<Value>, schema: SchemaView) -> bool {
    exists|parcel: Value, shared_props: SharedView, valeurfonc: Binary64, idmutation: u64|
        #[trigger] read_from(row, dcnt, parcel, shared_props, valeurfonc, idmutation, schema)
}

/// Whether `later` adds to `earlier` one mutation row for each of `lists`,
/// read from the same parcel as the list, and the blocks of `lists` as its
/// classes rows.
pub open spec fn adds_blocks(
    earlier: Extraction,
    later: Extraction,
    lists: Seq<Seq<Value>>,
    schema: SchemaView,
) -> bool {
    &&& later.mutations.len() == earlier.mutations.len() + lists.len()
    &&& later.classes == earlier.classes + blocks(lists, earlier.next_id)
    &&& forall|j: int|
        0 <= j < lists.len() ==> of_one_parcel(
            later.mutations[earlier.mutations.len() + j],
            #[trigger] lists[j],
            schema,
        )
}

/// An extraction adds no block to itself.
proof fn lemma_adds_nothing(acc: Extraction, later: Extraction, schema: SchemaView)
    requires
        later.mutations == acc.mutations,
        later.classes == acc.classes,
    ensures
        adds_blocks(acc, later, Seq::empty(), schema),
{
    assert(acc.classes + blocks(Seq::<Seq<Value>>::empty(), acc.next_id) =~= acc.classes);
}

/// What is added in two steps is added in one.
proof fn lemma_adds_chain(
    first: Extraction,
    second: Extraction,
    third: Extraction,
    lists: Seq<Seq<Value>>,
    more: Seq<Seq<Value>>,
    schema: SchemaView,
)
    requires
        continues(first, second),
        continues(second, third),
        adds_blocks(first, second, lists, schema),
        adds_blocks(second, third, more, schema),
    ensures
        adds_blocks(first, third, lists + more, schema),
{
    let all = lists + more;
    lemma_blocks_concat(lists, more, first.next_id);
    assert(third.classes =~= first.classes + blocks(all, first.next_id));
    assert forall|j: int| 0 <= j < all.len() implies of_one_parcel(
        third.mutations[first.mutations.len() + j],
        #[trigger] all[j],
        schema,
    ) by {
        if j < lists.len() {
            assert(all[j] == lists[j]);
            assert(third.mutations[first.mutations.len() + j] == second.mutations[first.mutations.len()
                + j]);
        } else {
            assert(all[j] == more[j - lists.len()]);
        }
    }
}

/// What one entry of a list of parcels adds: the land-use list of the
/// parcel where it is written, and nothing where it is not.
pub proof fn lemma_parcel_blocks(
    acc: Extraction,
    parcel: Value,
    shared_props: SharedView,
    valeurfonc: Binary64,
    idmutation: u64,
    schema: SchemaView,
) -> (lists: Seq<Seq<Value>>)
    ensures
        adds_blocks(
            acc,
            with_parcel(acc, parcel, shared_props, valeurfonc, idmutation, schema),
            lists,
            schema,
        ),
        lists.len() <= 1,
{
    let later = with_parcel(acc, parcel, shared_props, valeurfonc, idmutation, schema);
    if later.mutations.len() > acc.mutations.len() {
        let dcnt = items_at(parcel, "dcnt"@)->Some_0;
        let lists = seq![dcnt];
        lemma_nth_id_steps(acc.next_id, 0);
        assert(lists.drop_last() =~= Seq::<Seq<Value>>::empty());
        assert(blocks(lists.drop_last(), acc.next_id) =~= Seq::<ClassesView>::empty());
        assert(blocks(lists, acc.next_id) =~= classes_of(dcnt, acc.next_id));
        let row = later.mutations[acc.mutations.len() as int];
        assert(read_from(row, dcnt, parcel, shared_props, valeurfonc, idmutation, schema));
        lists
    } else {
        lemma_adds_nothing(acc, later, schema);
        Seq::empty()
    }
}

/// What a list of parcels adds.
pub proof fn lemma_parcels_blocks(
    acc: Extraction,
    parcels: Seq<Value>,
    shared_props: SharedView,
    valeurfonc: Binary64,
    idmutation: u64,
    schema: SchemaView,
) -> (lists: Seq<Seq<Value>>)
    ensures
        adds_blocks(
            acc,
            with_parcels(acc, parcels, shared_props, valeurfonc, idmutation, schema),
            lists,
            schema,
        ),
        lists.len() <= parcels.len(),
    decreases parcels.len(),
{
    if parcels.len() == 0 {
        lemma_adds_nothing(acc, acc, schema);
        Seq::empty()
    } else {
        let front = parcels.drop_last();
        let so_far = with_parcels(acc, front, shared_props, valeurfonc, idmutation, schema);
        let later = with_parcel(so_far, parcels.last(), shared_props, valeurfonc, idmutation, schema);
        let lists = lemma_parcels_blocks(acc, front, shared_props, valeurfonc, idmutation, schema);
        let more = lemma_parcel_blocks(
            so_far,
            parcels.last(),
            shared_props,
            valeurfonc,
            idmutation,
            schema,
        );
        lemma_parcels_continue(acc, front, shared_props, valeurfonc, idmutation, schema);
        lemma_parcel_continues(so_far, parcels.last(), shared_props, valeurfonc, idmutation, schema);
        lemma_adds_chain(acc, so_far, later, lists, more, schema);
        lists + more
    }
}

/// What one entry of a list of dispositions adds.
pub proof fn lemma_disposition_blocks(
    acc: Extraction,
    disposition: Value,
    shared_props: SharedView,
    schema: SchemaView,
) -> (lists: Seq<Seq<Value>>)
    ensures
        adds_blocks(acc, with_disposition(acc, disposition, shared_props, schema), lists, schema),
{
    let later = with_disposition(acc, disposition, shared_props, schema);
    if acc.failure is None && json_is_object(disposition) {
        match (
            items_at(disposition, "parcelles"@),
            number_at(disposition, "valeurfonc"@),
            unsigned_at(disposition, "idmutation"@),
        ) {
            (Some(parcels), Some(bits), Some(idmutation)) => lemma_parcels_blocks(
                acc,
                parcels,
                shared_props,
                Binary64 { bits },
                idmutation,
                schema,
            ),
            _ => {
                lemma_adds_nothing(acc, later, schema);
                Seq::empty()
            },
        }
    } else {
        lemma_adds_nothing(acc, later, schema);
        Seq::empty()
    }
}

/// What a list of dispositions adds.
pub proof fn lemma_dispositions_blocks(
    acc: Extraction,
    dispositions: Seq<Value>,
    shared_props: SharedView,
    schema: SchemaView,
) -> (lists: Seq<Seq<Value>>)
    ensures
        adds_blocks(
            acc,
            with_dispositions(acc, dispositions, shared_props, schema),
            lists,
            schema,
        ),
    decreases dispositions.len(),
{
    if dispositions.len() == 0 {
        lemma_adds_nothing(acc, acc, schema);
        Seq::empty()
    } else {
        let front = dispositions.drop_last();
        let so_far = with_dispositions(acc, front, shared_props, schema);
        let later = with_disposition(so_far, dispositions.last(), shared_props, schema);
        let lists = lemma_dispositions_blocks(acc, front, shared_props, schema);
        let more = lemma_disposition_blocks(so_far, dispositions.last(), shared_props, schema);
        lemma_dispositions_continue(acc, front, shared_props, schema);
        lemma_disposition_continues(so_far, dispositions.last(), shared_props, schema);
        lemma_adds_chain(acc, so_far, later, lists, more, schema);
        lists + more
    }
}

/// What one feature adds, whether it fails or not.
pub proof fn lemma_feature_blocks(acc: Extraction, feature: Value, schema: SchemaView) -> (lists:
    Seq<Seq<Value>>)
    ensures
        adds_blocks(acc, with_feature(acc, feature, schema), lists, schema),
{
    let later = with_feature(acc, feature, schema);
    match json_member(feature, "properties"@) {
        Some(properties) => {
            if json_is_object(properties) {
                match (shared_of(properties), items_at(properties, "dispositions"@)) {
                    (Ok(shared_props), Some(dispositions)) => lemma_dispositions_blocks(
                        acc,
                        dispositions,
                        shared_props,
                        schema,
                    ),
                    _ => {
                        lemma_adds_nothing(acc, later, schema);
                        Seq::empty()
                    },
                }
            } else {
                lemma_adds_nothing(acc, later, schema);
                Seq::empty()
            }
        },
        None => {
            lemma_adds_nothing(acc, later, schema);
            Seq::empty()
        },
    }
}

/// What a document adds: one mutation row for each parcel that it writes,
/// and as classes rows the blocks of the land-use lists of those parcels, in
/// the order of the mutation rows. So the classes rows of one parcel stand
/// together, in the order of its land-use list and under the identifier of
/// its mutation row, and there are as many classes rows as the land-use
/// lists of the written parcels have entries with a surface of at least 1
/// and a label.
pub proof fn lemma_document_blocks(acc: Extraction, features: Seq<Value>, schema: SchemaView) -> (lists:
    Seq<Seq<Value>>)
    ensures
        adds_blocks(acc, with_features(acc, features, schema).rows, lists, schema),
        with_features(acc, features, schema).rows.classes.len() == acc.classes.len() + total_kept(
            lists,
        ),
    decreases features.len(),
{
    if features.len() == 0 {
        lemma_adds_nothing(acc, acc, schema);
        Seq::empty()
    } else {
        let front = features.drop_last();
        let so_far = with_features(acc, front, schema).rows;
        let next = with_feature(so_far, features.last(), schema);
        let later = with_features(acc, features, schema).rows;
        let lists = lemma_document_blocks(acc, front, schema);
        let more = lemma_feature_blocks(so_far, features.last(), schema);
        lemma_document_continues(acc, front, schema);
        lemma_feature_continues(so_far, features.last(), schema);
        assert(adds_blocks(so_far, later, more, schema));
        assert(continues(so_far, later));
        lemma_adds_chain(acc, so_far, later, lists, more, schema);
        lemma_blocks_count(lists + more, acc.next_id);
        lists + more
    }
}

} // verus!
