//! How an extraction numbers its rows: every mutation row gets the next
//! identifier of the generator, so the rows of a run are numbered without a
//! gap and without a repeat, and every classes row carries the identifier of
//! a mutation row written with it.

use vstd::prelude::*;
use serde_json::Value;
use crate::ids::{
    lemma_ids_count_from_zero, lemma_ids_distinct, lemma_nth_id_adds, lemma_nth_id_steps, nth_id,
};
use crate::json::{items_at, json_is_object, json_member, number_at, unsigned_at};
use crate::tables::{class_of, classes_of, Binary64, MutationView, SchemaView, SharedView};
use crate::transform::{
    shared_of, with_disposition, with_dispositions, with_feature, with_features, with_parcel,
    with_parcels, Extraction,
};

verus! {

/// Whether `later` goes on from `earlier`: it keeps the rows of `earlier`
/// at their places; the mutation rows that it adds are numbered one after
/// the other from the next identifier of `earlier`; its own next identifier
/// is the one after them; and each classes row that it adds carries the
/// identifier of a mutation row that it adds.
pub open spec fn continues(earlier: Extraction, later: Extraction) -> bool {
    let m = earlier.mutations.len() as int;
    let c = earlier.classes.len() as int;
    &&& m <= later.mutations.len()
    &&& c <= later.classes.len()
    &&& forall|k: int| 0 <= k < m ==> #[trigger] later.mutations[k] == earlier.mutations[k]
    &&& forall|k: int| 0 <= k < c ==> #[trigger] later.classes[k] == earlier.classes[k]
    &&& forall|k: int|
        m <= k < later.mutations.len() ==> (#[trigger] later.mutations[k]).idg == nth_id(
            earlier.next_id,
            (k - m) as nat,
        )
    &&& later.next_id == nth_id(earlier.next_id, (later.mutations.len() - m) as nat)
    &&& forall|k: int|
        c <= k < later.classes.len() ==> owned(later.mutations, m, (#[trigger] later.classes[k]).idg)
}

/// Whether a mutation row of `rows` from the place `from` on has the
/// identifier `id`.
pub open spec fn owned(rows: Seq<MutationView>, from: int, id: u64) -> bool {
    exists|j: int| from <= j < rows.len() && (#[trigger] rows[j]).idg == id
}

/// An extraction goes on from itself.
pub proof fn lemma_continues_itself(acc: Extraction)
    ensures
        continues(acc, acc),
{
    lemma_nth_id_steps(acc.next_id, 0);
}

/// Going on from what goes on is going on.
pub proof fn lemma_continues_chain(first: Extraction, second: Extraction, third: Extraction)
    requires
        continues(first, second),
        continues(second, third),
    ensures
        continues(first, third),
{
    let m1 = first.mutations.len() as int;
    let m2 = second.mutations.len() as int;
    let c1 = first.classes.len() as int;
    let c2 = second.classes.len() as int;
    assert forall|k: int| 0 <= k < m1 implies #[trigger] third.mutations[k]
        == first.mutations[k] by {
        assert(third.mutations[k] == second.mutations[k]);
    }
    assert forall|k: int| 0 <= k < c1 implies #[trigger] third.classes[k] == first.classes[k] by {
        assert(third.classes[k] == second.classes[k]);
    }
    assert forall|k: int| m1 <= k < third.mutations.len() implies (
    #[trigger] third.mutations[k]).idg == nth_id(first.next_id, (k - m1) as nat) by {
        if k < m2 {
            assert(third.mutations[k] == second.mutations[k]);
        } else {
            lemma_nth_id_adds(first.next_id, (m2 - m1) as nat, (k - m2) as nat);
        }
    }
    lemma_nth_id_adds(first.next_id, (m2 - m1) as nat, (third.mutations.len() - m2) as nat);
    assert forall|k: int| c1 <= k < third.classes.len() implies owned(
        third.mutations,
        m1,
        (#[trigger] third.classes[k]).idg,
    ) by {
        if k < c2 {
            assert(third.classes[k] == second.classes[k]);
            assert(owned(second.mutations, m1, second.classes[k].idg));
            let j = choose|j: int|
                m1 <= j < second.mutations.len() && (#[trigger] second.mutations[j]).idg
                    == second.classes[k].idg;
            assert(third.mutations[j] == second.mutations[j]);
        } else {
            assert(owned(third.mutations, m2, third.classes[k].idg));
            let j = choose|j: int|
                m2 <= j < third.mutations.len() && (#[trigger] third.mutations[j]).idg
                    == third.classes[k].idg;
            assert(third.mutations[j].idg == third.classes[k].idg);
        }
    }
}

/// The classes rows of a parcel carry the identifier of the parcel.
pub proof fn lemma_classes_carry_id(entries: Seq<Value>, id: u64)
    ensures
        forall|k: int|
            0 <= k < classes_of(entries, id).len() ==> (#[trigger] classes_of(entries, id)[k]).idg
                == id,
    decreases entries.len(),
{
    if entries.len() > 0 {
        lemma_classes_carry_id(entries.drop_last(), id);
        let rest = classes_of(entries.drop_last(), id);
        let rows = classes_of(entries, id);
        assert forall|k: int| 0 <= k < rows.len() implies (#[trigger] rows[k]).idg == id by {
            match class_of(entries.last(), id) {
                Some(row) => {
                    assert(rows == rest.push(row));
                    if k < rest.len() {
                        assert(rows[k] == rest[k]);
                    }
                },
                None => {},
            }
        }
    }
}

/// An entry of a list of parcels goes on from what was there.
pub proof fn lemma_parcel_continues(
    acc: Extraction,
    parcel: Value,
    shared_props: SharedView,
    valeurfonc: Binary64,
    idmutation: u64,
    schema: SchemaView,
)
    ensures
        continues(acc, with_parcel(acc, parcel, shared_props, valeurfonc, idmutation, schema)),
{
    let later = with_parcel(acc, parcel, shared_props, valeurfonc, idmutation, schema);
    lemma_nth_id_steps(acc.next_id, 0);
    if later.mutations.len() > acc.mutations.len() {
        let dcnt = items_at(parcel, "dcnt"@)->Some_0;
        lemma_classes_carry_id(dcnt, acc.next_id);
        let m = acc.mutations.len() as int;
        assert(later.mutations[m].idg == acc.next_id);
        assert forall|k: int| acc.classes.len() <= k < later.classes.len() implies owned(
            later.mutations,
            m,
            (#[trigger] later.classes[k]).idg,
        ) by {
            assert(later.classes[k] == classes_of(dcnt, acc.next_id)[k - acc.classes.len()]);
            assert(later.mutations[m].idg == later.classes[k].idg);
        }
    }
}

/// A list of parcels goes on from what was there.
pub proof fn lemma_parcels_continue(
    acc: Extraction,
    parcels: Seq<Value>,
    shared_props: SharedView,
    valeurfonc: Binary64,
    idmutation: u64,
    schema: SchemaView,
)
    ensures
        continues(acc, with_parcels(acc, parcels, shared_props, valeurfonc, idmutation, schema)),
    decreases parcels.len(),
{
    if parcels.len() == 0 {
        lemma_continues_itself(acc);
    } else {
        let so_far = with_parcels(
            acc,
            parcels.drop_last(),
            shared_props,
            valeurfonc,
            idmutation,
            schema,
        );
        lemma_parcels_continue(acc, parcels.drop_last(), shared_props, valeurfonc, idmutation, schema);
        lemma_parcel_continues(so_far, parcels.last(), shared_props, valeurfonc, idmutation, schema);
        lemma_continues_chain(
            acc,
            so_far,
            with_parcel(so_far, parcels.last(), shared_props, valeurfonc, idmutation, schema),
        );
    }
}

/// An entry of a list of dispositions goes on from what was there.
pub proof fn lemma_disposition_continues(
    acc: Extraction,
    disposition: Value,
    shared_props: SharedView,
    schema: SchemaView,
)
    ensures
        continues(acc, with_disposition(acc, disposition, shared_props, schema)),
{
    lemma_continues_itself(acc);
    if acc.failure is None && json_is_object(disposition) {
        match (
            items_at(disposition, "parcelles"@),
            number_at(disposition, "valeurfonc"@),
            unsigned_at(disposition, "idmutation"@),
        ) {
            (Some(parcels), Some(bits), Some(idmutation)) => {
                lemma_parcels_continue(
                    acc,
                    parcels,
                    shared_props,
                    Binary64 { bits },
                    idmutation,
                    schema,
                );
            },
            _ => {},
        }
    }
}

/// A list of dispositions goes on from what was there.
pub proof fn lemma_dispositions_continue(
    acc: Extraction,
    dispositions: Seq<Value>,
    shared_props: SharedView,
    schema: SchemaView,
)
    ensures
        continues(acc, with_dispositions(acc, dispositions, shared_props, schema)),
    decreases dispositions.len(),
{
    if dispositions.len() == 0 {
        lemma_continues_itself(acc);
    } else {
        let so_far = with_dispositions(acc, dispositions.drop_last(), shared_props, schema);
        lemma_dispositions_continue(acc, dispositions.drop_last(), shared_props, schema);
        lemma_disposition_continues(so_far, dispositions.last(), shared_props, schema);
        lemma_continues_chain(
            acc,
            so_far,
            with_disposition(so_far, dispositions.last(), shared_props, schema),
        );
    }
}

/// A feature goes on from what was there, whether it fails or not.
pub proof fn lemma_feature_continues(acc: Extraction, feature: Value, schema: SchemaView)
    ensures
        continues(acc, with_feature(acc, feature, schema)),
{
    lemma_continues_itself(acc);
    match json_member(feature, "properties"@) {
        Some(properties) => {
            if json_is_object(properties) {
                match shared_of(properties) {
                    Ok(shared_props) => match items_at(properties, "dispositions"@) {
                        Some(dispositions) => {
                            lemma_dispositions_continue(acc, dispositions, shared_props, schema);
                        },
                        None => {},
                    },
                    Err(_) => {},
                }
            }
        },
        None => {},
    }
}

/// The rows that a document adds are numbered one after the other from the
/// next identifier of the generator, whichever of its features fail.
pub proof fn lemma_document_continues(acc: Extraction, features: Seq<Value>, schema: SchemaView)
    ensures
        continues(acc, with_features(acc, features, schema).rows),
        with_features(acc, features, schema).failures.len() == features.len(),
    decreases features.len(),
{
    if features.len() == 0 {
        lemma_continues_itself(acc);
    } else {
        let so_far = with_features(acc, features.drop_last(), schema).rows;
        lemma_document_continues(acc, features.drop_last(), schema);
        lemma_feature_continues(so_far, features.last(), schema);
        let next = with_feature(so_far, features.last(), schema);
        lemma_continues_chain(acc, so_far, with_features(acc, features, schema).rows);
    }
}

/// The extraction of a new run: no row yet, and 0 as the next identifier.
pub open spec fn new_run() -> Extraction {
    Extraction { mutations: Seq::empty(), classes: Seq::empty(), next_id: 0, failure: None }
}

/// In a run that started with a new generator, the mutation rows carry the
/// identifiers 0, 1, 2, ... in their order: the identifiers of `n` rows are
/// the numbers below `n`, each once.
pub proof fn lemma_run_numbers_from_zero(later: Extraction)
    requires
        continues(new_run(), later),
        later.mutations.len() <= u64::MAX,
    ensures
        forall|k: int| 0 <= k < later.mutations.len() ==> (#[trigger] later.mutations[k]).idg == k,
        forall|i: int, j: int|
            0 <= i < j < later.mutations.len() ==> (#[trigger] later.mutations[i]).idg != (
            #[trigger] later.mutations[j]).idg,
        later.next_id == later.mutations.len(),
{
    assert forall|k: int| 0 <= k < later.mutations.len() implies (
    #[trigger] later.mutations[k]).idg == k by {
        lemma_ids_count_from_zero(k as nat);
    }
    lemma_ids_count_from_zero(later.mutations.len());
}

/// Whatever the generator started with, two mutation rows that a run added
/// differ in their identifiers.
pub proof fn lemma_run_ids_distinct(earlier: Extraction, later: Extraction, i: int, j: int)
    requires
        continues(earlier, later),
        earlier.mutations.len() <= i < j < later.mutations.len(),
        later.mutations.len() <= u64::MAX,
    ensures
        later.mutations[i].idg != later.mutations[j].idg,
{
    let m = earlier.mutations.len() as int;
    lemma_ids_distinct(earlier.next_id, (i - m) as nat, (j - m) as nat);
}

} // verus!
