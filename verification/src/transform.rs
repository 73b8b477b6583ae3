//! Flattening one response document into mutation rows and classes rows.
//!
//! The document is walked in its order: features, their dispositions, their
//! parcels. Each parcel that has all its parts gives one mutation row, under
//! the next identifier, and the classes rows of its land-use entries under
//! the same identifier. Where a part is missing, the extraction of that
//! feature stops there: the rows written so far stay, and the walk goes on
//! with the next feature.

use vstd::prelude::*;
use serde_json::Value;
use crate::ids::{following, IdGenerator};
use crate::json::{
    flag_at, flag_field, is_object, items_at, items_field, json_is_object, json_member,
    json_parsed, member, number_at, number_field, parse, text_at, text_field, unsigned_at,
    unsigned_field,
};
use crate::numbering::{continues, lemma_continues_itself, lemma_document_continues};
use crate::tables::{
    classes_of, classes_views, mutation_of, mutation_views, Binary64, Classes, ClassesView,
    ExtractError, Field, Mutation, MutationView, Schema, SchemaView, SharedMutationProps,
    SharedView,
};

verus! {

/// How far an extraction has come: the rows written, the identifier that
/// the next parcel gets, and the failure that stopped the feature at hand,
/// if one did.
pub struct Extraction {
    pub mutations: Seq<MutationView>,
    pub classes: Seq<ClassesView>,
    pub next_id: u64,
    pub failure: Option<ExtractError>,
}

/// The extraction `acc`, stopped by `e`.
pub open spec fn failed(acc: Extraction, e: ExtractError) -> Extraction {
    Extraction { failure: Some(e), ..acc }
}

/// The extraction `acc`, ready for the next feature.
pub open spec fn settled(acc: Extraction) -> Extraction {
    Extraction { failure: None, ..acc }
}

/// What an extraction returns: nothing, or the failure that stopped it.
pub open spec fn verdict(acc: Extraction) -> Result<(), ExtractError> {
    match acc.failure {
        None => Ok(()),
        Some(e) => Err(e),
    }
}

/// The extraction that the two lists of rows and the generator stand for.
pub open spec fn state_of(
    mutations: Seq<Mutation>,
    classes: Seq<Classes>,
    ids: IdGenerator,
) -> Extraction {
    Extraction {
        mutations: mutation_views(mutations),
        classes: classes_views(classes),
        next_id: ids.upcoming(),
        failure: None,
    }
}

/// The extraction after one entry of a list of parcels. An entry that is no
/// object is passed over. A parcel needs its list of land-use entries and
/// all that its mutation row needs.
pub open spec fn with_parcel(
    acc: Extraction,
    parcel: Value,
    shared_props: SharedView,
    valeurfonc: Binary64,
    idmutation: u64,
    schema: SchemaView,
) -> Extraction {
    if acc.failure is Some || !json_is_object(parcel) {
        acc
    } else {
        match items_at(parcel, "dcnt"@) {
            None => failed(acc, ExtractError::Missing(Field::Dcnt)),
            Some(dcnt) => match mutation_of(
                parcel,
                shared_props,
                valeurfonc,
                idmutation,
                acc.next_id,
                schema,
            ) {
                Err(e) => failed(acc, e),
                Ok(row) => Extraction {
                    mutations: acc.mutations.push(row),
                    classes: acc.classes + classes_of(dcnt, acc.next_id),
                    next_id: following(acc.next_id),
                    failure: None,
                },
            },
        }
    }
}

/// The extraction after a list of parcels.
pub open spec fn with_parcels(
    acc: Extraction,
    parcels: Seq<Value>,
    shared_props: SharedView,
    valeurfonc: Binary64,
    idmutation: u64,
    schema: SchemaView,
) -> Extraction
    decreases parcels.len(),
{
    if parcels.len() == 0 {
        acc
    } else {
        with_parcel(
            with_parcels(acc, parcels.drop_last(), shared_props, valeurfonc, idmutation, schema),
            parcels.last(),
            shared_props,
            valeurfonc,
            idmutation,
            schema,
        )
    }
}

/// The extraction after one entry of a list of dispositions. An entry that
/// is no object is passed over. A disposition needs its list of parcels, its
/// transacted value and its mutation number.
pub open spec fn with_disposition(
    acc: Extraction,
    disposition: Value,
    shared_props: SharedView,
    schema: SchemaView,
) -> Extraction {
    if acc.failure is Some || !json_is_object(disposition) {
        acc
    } else {
        match (
            items_at(disposition, "parcelles"@),
            number_at(disposition, "valeurfonc"@),
            unsigned_at(disposition, "idmutation"@),
        ) {
            (None, _, _) => failed(acc, ExtractError::Missing(Field::Parcelles)),
            (Some(_), None, _) => failed(acc, ExtractError::Missing(Field::Valeurfonc)),
            (Some(_), Some(_), None) => failed(acc, ExtractError::Missing(Field::Idmutation)),
            (Some(parcels), Some(bits), Some(idmutation)) => with_parcels(
                acc,
                parcels,
                shared_props,
                Binary64 { bits },
                idmutation,
                schema,
            ),
        }
    }
}

/// The extraction after a list of dispositions.
pub open spec fn with_dispositions(
    acc: Extraction,
    dispositions: Seq<Value>,
    shared_props: SharedView,
    schema: SchemaView,
) -> Extraction
    decreases dispositions.len(),
{
    if dispositions.len() == 0 {
        acc
    } else {
        with_disposition(
            with_dispositions(acc, dispositions.drop_last(), shared_props, schema),
            dispositions.last(),
            shared_props,
            schema,
        )
    }
}

/// The label of the object under `key`.
pub open spec fn label_at(properties: Value, key: Seq<char>) -> Option<Seq<char>> {
    match json_member(properties, key) {
        Some(found) => text_at(found, "libelle"@),
        None => None,
    }
}

/// What the parcels of a feature have in common, or the first part of it
/// that the properties lack.
pub open spec fn shared_of(properties: Value) -> Result<SharedView, ExtractError> {
    match (
        flag_at(properties, "vefa"@),
        text_at(properties, "datemut"@),
        label_at(properties, "typologie"@),
        label_at(properties, "nature_mutation"@),
    ) {
        (None, _, _, _) => Err(ExtractError::Missing(Field::Vefa)),
        (Some(_), None, _, _) => Err(ExtractError::Missing(Field::Datemut)),
        (Some(_), Some(_), None, _) => Err(ExtractError::Missing(Field::Typologie)),
        (Some(_), Some(_), Some(_), None) => Err(ExtractError::Missing(Field::Nature)),
        (Some(vefa), Some(datemut), Some(typologie), Some(nature)) => Ok(
            SharedView { vefa, typologie, datemut, nature },
        ),
    }
}

/// The extraction after the properties of one feature.
pub open spec fn with_properties(acc: Extraction, properties: Value, schema: SchemaView)
    -> Extraction {
    match shared_of(properties) {
        Err(e) => failed(acc, e),
        Ok(shared_props) => match items_at(properties, "dispositions"@) {
            None => failed(acc, ExtractError::Missing(Field::Dispositions)),
            Some(dispositions) => with_dispositions(acc, dispositions, shared_props, schema),
        },
    }
}

/// The extraction after one feature, which needs an object as properties.
pub open spec fn with_feature(acc: Extraction, feature: Value, schema: SchemaView) -> Extraction {
    match json_member(feature, "properties"@) {
        None => failed(acc, ExtractError::Missing(Field::Properties)),
        Some(properties) => if json_is_object(properties) {
            with_properties(acc, properties, schema)
        } else {
            failed(acc, ExtractError::Missing(Field::Properties))
        },
    }
}

/// How far the extraction of a document has come: the rows, and for each
/// feature passed the failure that stopped it, if one did.
pub struct DocumentExtraction {
    pub rows: Extraction,
    pub failures: Seq<Option<ExtractError>>,
}

/// The extraction after a list of features. A feature that fails does not
/// stop the next.
pub open spec fn with_features(acc: Extraction, features: Seq<Value>, schema: SchemaView)
    -> DocumentExtraction
    decreases features.len(),
{
    if features.len() == 0 {
        DocumentExtraction { rows: acc, failures: Seq::empty() }
    } else {
        let so_far = with_features(acc, features.drop_last(), schema);
        let next = with_feature(so_far.rows, features.last(), schema);
        DocumentExtraction { rows: settled(next), failures: so_far.failures.push(next.failure) }
    }
}

/// Once a parcel has failed, the parcels after it change nothing.
pub proof fn lemma_parcels_stop_at_failure(
    acc: Extraction,
    parcels: Seq<Value>,
    shared_props: SharedView,
    valeurfonc: Binary64,
    idmutation: u64,
    schema: SchemaView,
    n: int,
)
    requires
        0 <= n <= parcels.len(),
        with_parcels(acc, parcels.take(n), shared_props, valeurfonc, idmutation, schema).failure
            is Some,
    ensures
        with_parcels(acc, parcels, shared_props, valeurfonc, idmutation, schema) == with_parcels(
            acc,
            parcels.take(n),
            shared_props,
            valeurfonc,
            idmutation,
            schema,
        ),
    decreases parcels.len() - n,
{
    if n == parcels.len() {
        assert(parcels.take(n) =~= parcels);
    } else {
        assert(parcels.drop_last().take(n) =~= parcels.take(n));
        lemma_parcels_stop_at_failure(
            acc,
            parcels.drop_last(),
            shared_props,
            valeurfonc,
            idmutation,
            schema,
            n,
        );
    }
}

/// Once a disposition has failed, the dispositions after it change nothing.
pub proof fn lemma_dispositions_stop_at_failure(
    acc: Extraction,
    dispositions: Seq<Value>,
    shared_props: SharedView,
    schema: SchemaView,
    n: int,
)
    requires
        0 <= n <= dispositions.len(),
        with_dispositions(acc, dispositions.take(n), shared_props, schema).failure is Some,
    ensures
        with_dispositions(acc, dispositions, shared_props, schema) == with_dispositions(
            acc,
            dispositions.take(n),
            shared_props,
            schema,
        ),
    decreases dispositions.len() - n,
{
    if n == dispositions.len() {
        assert(dispositions.take(n) =~= dispositions);
    } else {
        assert(dispositions.drop_last().take(n) =~= dispositions.take(n));
        lemma_dispositions_stop_at_failure(acc, dispositions.drop_last(), shared_props, schema, n);
    }
}

/// Writes the rows of a list of parcels.
pub fn map_parcelles(
    parcelles: &Vec<Value>,
    shared_props: &SharedMutationProps,
    valeurfonc: Binary64,
    idmutation: u64,
    schema: &Schema,
    id_generator: &mut IdGenerator,
    mutations: &mut Vec<Mutation>,
    classes: &mut Vec<Classes>,
) -> (r: Result<(), ExtractError>)
    ensures
        ({
            let after = with_parcels(
                state_of(old(mutations)@, old(classes)@, *old(id_generator)),
                parcelles@,
                shared_props@,
                valeurfonc,
                idmutation,
                schema@,
            );
            &&& state_of(final(mutations)@, final(classes)@, *final(id_generator)) == settled(after)
            &&& r == verdict(after)
        }),
{
    let ghost start = state_of(mutations@, classes@, *id_generator);
    let mut i: usize = 0;
    assert(parcelles@.take(0) =~= Seq::<Value>::empty());
    while i < parcelles.len()
        invariant
            0 <= i <= parcelles.len(),
            start == state_of(old(mutations)@, old(classes)@, *old(id_generator)),
            state_of(mutations@, classes@, *id_generator) == with_parcels(
                start,
                parcelles@.take(i as int),
                shared_props@,
                valeurfonc,
                idmutation,
                schema@,
            ),
        decreases parcelles.len() - i,
    {
        let ghost acc = state_of(mutations@, classes@, *id_generator);
        let ghost next = with_parcels(
            start,
            parcelles@.take(i + 1),
            shared_props@,
            valeurfonc,
            idmutation,
            schema@,
        );
        assert(parcelles@.take(i + 1).drop_last() =~= parcelles@.take(i as int));
        assert(parcelles@.take(i + 1).last() == parcelles@[i as int]);
        let parcelle: &Value = &parcelles[i];
        if is_object(parcelle) {
            let dcnt: &Vec<Value> = match items_field(parcelle, "dcnt") {
                Some(found) => found,
                None => {
                    proof {
                        lemma_parcels_stop_at_failure(
                            start,
                            parcelles@,
                            shared_props@,
                            valeurfonc,
                            idmutation,
                            schema@,
                            i + 1,
                        );
                    }
                    return Err(ExtractError::Missing(Field::Dcnt));
                },
            };
            let id: u64 = id_generator.peek();
            let mutation_row: Mutation = match Mutation::extract(
                parcelle,
                shared_props,
                valeurfonc,
                idmutation,
                id,
                schema,
            ) {
                Ok(row) => row,
                Err(e) => {
                    proof {
                        lemma_parcels_stop_at_failure(
                            start,
                            parcelles@,
                            shared_props@,
                            valeurfonc,
                            idmutation,
                            schema@,
                            i + 1,
                        );
                    }
                    return Err(e);
                },
            };
            let mut classes_rows: Vec<Classes> = match Classes::extract(dcnt, id) {
                Ok(rows) => rows,
                Err(e) => {
                    return Err(e);
                },
            };
            let _ = id_generator.next_id();
            let ghost new_classes = classes_rows@;
            classes.append(&mut classes_rows);
            mutations.push(mutation_row);
            assert(mutation_views(mutations@) =~= acc.mutations.push(mutation_row@));
            assert(classes_views(classes@) =~= acc.classes + classes_views(new_classes));
        }
        i = i + 1;
    }
    assert(parcelles@.take(i as int) =~= parcelles@);
    Ok(())
}

/// Writes the rows of a list of dispositions.
pub fn map_dispositions(
    dispositions: &Vec<Value>,
    shared_props: &SharedMutationProps,
    schema: &Schema,
    id_generator: &mut IdGenerator,
    mutations: &mut Vec<Mutation>,
    classes: &mut Vec<Classes>,
) -> (r: Result<(), ExtractError>)
    ensures
        ({
            let after = with_dispositions(
                state_of(old(mutations)@, old(classes)@, *old(id_generator)),
                dispositions@,
                shared_props@,
                schema@,
            );
            &&& state_of(final(mutations)@, final(classes)@, *final(id_generator)) == settled(after)
            &&& r == verdict(after)
        }),
{
    let ghost start = state_of(mutations@, classes@, *id_generator);
    let mut i: usize = 0;
    assert(dispositions@.take(0) =~= Seq::<Value>::empty());
    while i < dispositions.len()
        invariant
            0 <= i <= dispositions.len(),
            start == state_of(old(mutations)@, old(classes)@, *old(id_generator)),
            state_of(mutations@, classes@, *id_generator) == with_dispositions(
                start,
                dispositions@.take(i as int),
                shared_props@,
                schema@,
            ),
        decreases dispositions.len() - i,
    {
        assert(dispositions@.take(i + 1).drop_last() =~= dispositions@.take(i as int));
        assert(dispositions@.take(i + 1).last() == dispositions@[i as int]);
        let disposition: &Value = &dispositions[i];
        if is_object(disposition) {
            let parcelles: Option<&Vec<Value>> = items_field(disposition, "parcelles");
            let valeurfonc: Option<u64> = number_field(disposition, "valeurfonc");
            let idmutation: Option<u64> = unsigned_field(disposition, "idmutation");
            let step: Result<(), ExtractError> = match (parcelles, valeurfonc, idmutation) {
                (None, _, _) => Err(ExtractError::Missing(Field::Parcelles)),
                (Some(_), None, _) => Err(ExtractError::Missing(Field::Valeurfonc)),
                (Some(_), Some(_), None) => Err(ExtractError::Missing(Field::Idmutation)),
                (Some(parcels), Some(bits), Some(number)) => map_parcelles(
                    parcels,
                    shared_props,
                    Binary64 { bits },
                    number,
                    schema,
                    id_generator,
                    mutations,
                    classes,
                ),
            };
            match step {
                Ok(()) => {},
                Err(e) => {
                    proof {
                        lemma_dispositions_stop_at_failure(
                            start,
                            dispositions@,
                            shared_props@,
                            schema@,
                            i + 1,
                        );
                    }
                    return Err(e);
                },
            }
        }
        i = i + 1;
    }
    assert(dispositions@.take(i as int) =~= dispositions@);
    Ok(())
}

/// Looks up the label of the object under `key`.
fn label_field(properties: &Value, key: &str) -> (r: Option<String>)
    ensures
        match r {
            Some(found) => label_at(*properties, key@) == Some(found@),
            None => label_at(*properties, key@) is None,
        },
{
    match member(properties, key) {
        Some(found) => text_field(found, "libelle"),
        None => None,
    }
}

/// Reads what the parcels of a feature have in common.
pub fn shared_properties(properties: &Value) -> (r: Result<SharedMutationProps, ExtractError>)
    ensures
        match r {
            Ok(props) => shared_of(*properties) == Ok::<_, ExtractError>(props@),
            Err(e) => shared_of(*properties) == Err::<SharedView, _>(e),
        },
{
    let vefa: bool = match flag_field(properties, "vefa") {
        Some(found) => found,
        None => {
            return Err(ExtractError::Missing(Field::Vefa));
        },
    };
    let datemut: String = match text_field(properties, "datemut") {
        Some(found) => found,
        None => {
            return Err(ExtractError::Missing(Field::Datemut));
        },
    };
    let typologie: String = match label_field(properties, "typologie") {
        Some(found) => found,
        None => {
            return Err(ExtractError::Missing(Field::Typologie));
        },
    };
    let nature: String = match label_field(properties, "nature_mutation") {
        Some(found) => found,
        None => {
            return Err(ExtractError::Missing(Field::Nature));
        },
    };
    Ok(SharedMutationProps::new(vefa, typologie, datemut, nature))
}

/// Writes the rows of the properties of one feature.
pub fn map_properties(
    properties: &Value,
    schema: &Schema,
    id_generator: &mut IdGenerator,
    mutations: &mut Vec<Mutation>,
    classes: &mut Vec<Classes>,
) -> (r: Result<(), ExtractError>)
    ensures
        ({
            let after = with_properties(
                state_of(old(mutations)@, old(classes)@, *old(id_generator)),
                *properties,
                schema@,
            );
            &&& state_of(final(mutations)@, final(classes)@, *final(id_generator)) == settled(after)
            &&& r == verdict(after)
        }),
{
    let shared_props: SharedMutationProps = match shared_properties(properties) {
        Ok(props) => props,
        Err(e) => {
            return Err(e);
        },
    };
    let dispositions: &Vec<Value> = match items_field(properties, "dispositions") {
        Some(found) => found,
        None => {
            return Err(ExtractError::Missing(Field::Dispositions));
        },
    };
    map_dispositions(dispositions, &shared_props, schema, id_generator, mutations, classes)
}

/// Writes the rows of a decoded document. Returns, for each feature in
/// order, the failure that stopped it, if one did. The rows that it adds are
/// numbered one after the other from the next identifier of the generator.
pub fn extract_document(
    document: &Value,
    schema: &Schema,
    id_generator: &mut IdGenerator,
    mutations: &mut Vec<Mutation>,
    classes: &mut Vec<Classes>,
) -> (r: Result<Vec<Option<ExtractError>>, ExtractError>)
    ensures
        match items_at(*document, "features"@) {
            None => {
                &&& r == Err::<Vec<Option<ExtractError>>, _>(ExtractError::Malformed)
                &&& final(mutations)@ == old(mutations)@
                &&& final(classes)@ == old(classes)@
                &&& *final(id_generator) == *old(id_generator)
            },
            Some(features) => {
                let after = with_features(
                    state_of(old(mutations)@, old(classes)@, *old(id_generator)),
                    features,
                    schema@,
                );
                &&& r is Ok
                &&& r->Ok_0@ == after.failures
                &&& r->Ok_0@.len() == features.len()
                &&& state_of(final(mutations)@, final(classes)@, *final(id_generator)) == after.rows
            },
        },
        continues(
            state_of(old(mutations)@, old(classes)@, *old(id_generator)),
            state_of(final(mutations)@, final(classes)@, *final(id_generator)),
        ),
{
    let ghost start = state_of(mutations@, classes@, *id_generator);
    let features: &Vec<Value> = match items_field(document, "features") {
        Some(found) => found,
        None => {
            proof {
                lemma_continues_itself(start);
            }
            return Err(ExtractError::Malformed);
        },
    };
    proof {
        lemma_document_continues(start, features@, schema@);
    }
    let mut failures: Vec<Option<ExtractError>> = Vec::new();
    let mut i: usize = 0;
    assert(features@.take(0) =~= Seq::<Value>::empty());
    while i < features.len()
        invariant
            0 <= i <= features.len(),
            start == state_of(old(mutations)@, old(classes)@, *old(id_generator)),
            failures@ == with_features(start, features@.take(i as int), schema@).failures,
            state_of(mutations@, classes@, *id_generator) == with_features(
                start,
                features@.take(i as int),
                schema@,
            ).rows,
        decreases features.len() - i,
    {
        assert(features@.take(i + 1).drop_last() =~= features@.take(i as int));
        assert(features@.take(i + 1).last() == features@[i as int]);
        let feature: &Value = &features[i];
        let step: Result<(), ExtractError> = match member(feature, "properties") {
            None => Err(ExtractError::Missing(Field::Properties)),
            Some(properties) => if is_object(properties) {
                map_properties(properties, schema, id_generator, mutations, classes)
            } else {
                Err(ExtractError::Missing(Field::Properties))
            },
        };
        match step {
            Ok(()) => failures.push(None),
            Err(e) => failures.push(Some(e)),
        }
        i = i + 1;
    }
    assert(features@.take(i as int) =~= features@);
    Ok(failures)
}

/// Decodes one response body and writes its rows. Returns, for each feature
/// in order, the failure that stopped it, if one did. A body that is no
/// document, or has no list of features, changes nothing. The rows that it
/// adds are numbered one after the other from the next identifier of the
/// generator.
pub fn transform_api_data(
    data: &str,
    schema: &Schema,
    id_generator: &mut IdGenerator,
    mutations: &mut Vec<Mutation>,
    classes: &mut Vec<Classes>,
) -> (r: Result<Vec<Option<ExtractError>>, ExtractError>)
    ensures
        match json_parsed(data@) {
            Some(document) => match items_at(document, "features"@) {
                Some(features) => {
                    let after = with_features(
                        state_of(old(mutations)@, old(classes)@, *old(id_generator)),
                        features,
                        schema@,
                    );
                    &&& r is Ok
                    &&& r->Ok_0@ == after.failures
                    &&& state_of(final(mutations)@, final(classes)@, *final(id_generator))
                        == after.rows
                },
                None => {
                    &&& r == Err::<Vec<Option<ExtractError>>, _>(ExtractError::Malformed)
                    &&& final(mutations)@ == old(mutations)@
                    &&& final(classes)@ == old(classes)@
                    &&& *final(id_generator) == *old(id_generator)
                },
            },
            None => {
                &&& r == Err::<Vec<Option<ExtractError>>, _>(ExtractError::Malformed)
                &&& final(mutations)@ == old(mutations)@
                &&& final(classes)@ == old(classes)@
                &&& *final(id_generator) == *old(id_generator)
            },
        },
        continues(
            state_of(old(mutations)@, old(classes)@, *old(id_generator)),
            state_of(final(mutations)@, final(classes)@, *final(id_generator)),
        ),
{
    match parse(data) {
        Ok(document) => extract_document(&document, schema, id_generator, mutations, classes),
        Err(_) => {
            proof {
                lemma_continues_itself(state_of(mutations@, classes@, *id_generator));
            }
            Err(ExtractError::Malformed)
        },
    }
}

} // verus!
