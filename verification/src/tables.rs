//! The two kinds of rows that a response is flattened into, and how one row
//! is read from its part of the document.

use vstd::prelude::*;
use serde_json::Value;
use crate::json::{
    flag_at, flag_field, items, json_items, json_member, json_number_bits, json_text, member,
    number_bits, text, text_at, text_field,
};

verus! {

/// A number of the document, carried by the bit pattern of its binary64
/// form. It is compared by that pattern: among the numbers that are not
/// negative, a larger number has the larger pattern.
#[derive(Clone, Copy, Debug, PartialEq, Eq, Structural)]
pub struct Binary64 {
    pub bits: u64,
}

/// The bit pattern of the number 1.
pub const ONE_BITS: u64 = 0x3FF0_0000_0000_0000;

/// The bit pattern of positive infinity: the largest pattern of a number
/// that is not negative.
pub const INFINITY_BITS: u64 = 0x7FF0_0000_0000_0000;

/// Whether the number with the bit pattern `bits` is at least 1.
pub open spec fn reaches_one(bits: u64) -> bool {
    ONE_BITS <= bits <= INFINITY_BITS
}

impl Binary64 {
    /// Tells whether the number is at least 1.
    pub fn at_least_one(&self) -> (r: bool)
        ensures
            r == reaches_one(self.bits),
    {
        ONE_BITS <= self.bits && self.bits <= INFINITY_BITS
    }
}

/// A part of the document that the extraction needs and did not find, or
/// found with a value of another type.
#[derive(Clone, Copy, Debug, PartialEq, Eq, Structural)]
pub enum Field {
    Properties,
    Vefa,
    Datemut,
    Typologie,
    Nature,
    Dispositions,
    Parcelles,
    Valeurfonc,
    Idmutation,
    Dcnt,
    Idpar,
    Sold,
    Adresses,
    Commune,
    Codepostal,
}

/// Why an extraction stopped.
#[derive(Clone, Copy, Debug, PartialEq, Eq, Structural)]
pub enum ExtractError {
    /// The body is no document, or has no list of features.
    Malformed,
    /// A required part is absent.
    Missing(Field),
}

/// The names under which a parcel may carry its sold flag: the first is
/// tried, then the second.
#[derive(Debug)]
pub struct Schema {
    pub sold_flag: String,
    pub sold_flag_fallback: String,
}

/// What a schema holds.
pub struct SchemaView {
    pub sold_flag: Seq<char>,
    pub sold_flag_fallback: Seq<char>,
}

impl View for Schema {
    type V = SchemaView;

    open spec fn view(&self) -> SchemaView {
        SchemaView { sold_flag: self.sold_flag@, sold_flag_fallback: self.sold_flag_fallback@ }
    }
}

impl Schema {
    pub fn new(sold_flag: String, sold_flag_fallback: String) -> (schema: Self)
        ensures
            schema@ == (SchemaView {
                sold_flag: sold_flag@,
                sold_flag_fallback: sold_flag_fallback@,
            }),
    {
        Schema { sold_flag, sold_flag_fallback }
    }
}

/// What the parcels of one transaction have in common.
#[derive(Debug)]
pub struct SharedMutationProps {
    pub vefa: bool,
    pub typologie: String,
    pub datemut: String,
    pub nature: String,
}

/// What shared properties hold.
pub struct SharedView {
    pub vefa: bool,
    pub typologie: Seq<char>,
    pub datemut: Seq<char>,
    pub nature: Seq<char>,
}

impl View for SharedMutationProps {
    type V = SharedView;

    open spec fn view(&self) -> SharedView {
        SharedView {
            vefa: self.vefa,
            typologie: self.typologie@,
            datemut: self.datemut@,
            nature: self.nature@,
        }
    }
}

impl SharedMutationProps {
    pub fn new(vefa: bool, typologie: String, datemut: String, nature: String) -> (props: Self)
        ensures
            props@ == (SharedView {
                vefa,
                typologie: typologie@,
                datemut: datemut@,
                nature: nature@,
            }),
    {
        Self { vefa, typologie, datemut, nature }
    }
}

impl Clone for SharedMutationProps {
    fn clone(&self) -> (copy: Self)
        ensures
            copy@ == self@,
    {
        SharedMutationProps {
            vefa: self.vefa,
            typologie: self.typologie.clone(),
            datemut: self.datemut.clone(),
            nature: self.nature.clone(),
        }
    }
}

/// The address of a parcel. The commune and the postal code are there on
/// every address that `extract` returns.
#[derive(Clone, Debug)]
pub struct Adresse {
    pub btq: Option<String>,
    pub voie: Option<String>,
    pub novoie: Option<String>,
    pub codvoie: Option<String>,
    pub commune: Option<String>,
    pub typvoie: Option<String>,
    pub codepostal: Option<String>,
}

/// What an address holds.
pub struct AdresseView {
    pub btq: Option<Seq<char>>,
    pub voie: Option<Seq<char>>,
    pub novoie: Option<Seq<char>>,
    pub codvoie: Option<Seq<char>>,
    pub commune: Option<Seq<char>>,
    pub typvoie: Option<Seq<char>>,
    pub codepostal: Option<Seq<char>>,
}

/// What an optional text holds.
pub open spec fn optional_text(text: Option<String>) -> Option<Seq<char>> {
    match text {
        Some(content) => Some(content@),
        None => None,
    }
}

impl View for Adresse {
    type V = AdresseView;

    open spec fn view(&self) -> AdresseView {
        AdresseView {
            btq: optional_text(self.btq),
            voie: optional_text(self.voie),
            novoie: optional_text(self.novoie),
            codvoie: optional_text(self.codvoie),
            commune: optional_text(self.commune),
            typvoie: optional_text(self.typvoie),
            codepostal: optional_text(self.codepostal),
        }
    }
}

/// One transacted parcel.
#[derive(Clone, Debug)]
pub struct Mutation {
    pub idg: u64,
    pub idpar: String,
    pub idmutation: u64,
    pub shared_props: SharedMutationProps,
    pub adresse: Adresse,
    pub valeur_fonciere: Binary64,
    pub vendu: bool,
}

/// What a mutation row holds.
pub struct MutationView {
    pub idg: u64,
    pub idpar: Seq<char>,
    pub idmutation: u64,
    pub shared_props: SharedView,
    pub adresse: AdresseView,
    pub valeur_fonciere: Binary64,
    pub vendu: bool,
}

impl View for Mutation {
    type V = MutationView;

    open spec fn view(&self) -> MutationView {
        MutationView {
            idg: self.idg,
            idpar: self.idpar@,
            idmutation: self.idmutation,
            shared_props: self.shared_props@,
            adresse: self.adresse@,
            valeur_fonciere: self.valeur_fonciere,
            vendu: self.vendu,
        }
    }
}

/// One land-use area of a parcel, tied to its mutation row by `idg`.
#[derive(Clone, Debug)]
pub struct Classes {
    pub idg: u64,
    pub libelle: String,
    pub surface: Binary64,
}

/// What a classes row holds.
pub struct ClassesView {
    pub idg: u64,
    pub libelle: Seq<char>,
    pub surface: Binary64,
}

impl View for Classes {
    type V = ClassesView;

    open spec fn view(&self) -> ClassesView {
        ClassesView { idg: self.idg, libelle: self.libelle@, surface: self.surface }
    }
}

/// The address that a list of addresses stands for: its first entry, where
/// that names a commune and a postal code.
pub open spec fn adresse_of(value: Value) -> Result<AdresseView, ExtractError> {
    match json_items(value) {
        None => Err(ExtractError::Missing(Field::Adresses)),
        Some(list) => if list.len() == 0 {
            Err(ExtractError::Missing(Field::Adresses))
        } else if text_at(list[0], "commune"@) is None {
            Err(ExtractError::Missing(Field::Commune))
        } else if text_at(list[0], "codepostal"@) is None {
            Err(ExtractError::Missing(Field::Codepostal))
        } else {
            Ok(
                AdresseView {
                    btq: text_at(list[0], "btq"@),
                    voie: text_at(list[0], "voie"@),
                    novoie: text_at(list[0], "novoie"@),
                    codvoie: text_at(list[0], "codvoie"@),
                    commune: text_at(list[0], "commune"@),
                    typvoie: text_at(list[0], "typvoie"@),
                    codepostal: text_at(list[0], "codepostal"@),
                },
            )
        },
    }
}

/// The sold flag of a parcel: under the first name of the schema, or else
/// under the second.
pub open spec fn sold_at(parcel: Value, schema: SchemaView) -> Option<bool> {
    match flag_at(parcel, schema.sold_flag) {
        Some(sold) => Some(sold),
        None => flag_at(parcel, schema.sold_flag_fallback),
    }
}

/// The mutation row of a parcel, or the first part that it lacks.
pub open spec fn mutation_of(
    parcel: Value,
    shared_props: SharedView,
    valeurfonc: Binary64,
    idmutation: u64,
    id: u64,
    schema: SchemaView,
) -> Result<MutationView, ExtractError> {
    if text_at(parcel, "idpar"@) is None {
        Err(ExtractError::Missing(Field::Idpar))
    } else if sold_at(parcel, schema) is None {
        Err(ExtractError::Missing(Field::Sold))
    } else {
        match json_member(parcel, "adresses"@) {
            None => Err(ExtractError::Missing(Field::Adresses)),
            Some(adresses) => match adresse_of(adresses) {
                Err(e) => Err(e),
                Ok(adresse) => Ok(
                    MutationView {
                        idg: id,
                        idpar: text_at(parcel, "idpar"@)->Some_0,
                        idmutation,
                        shared_props,
                        adresse,
                        valeur_fonciere: valeurfonc,
                        vendu: sold_at(parcel, schema)->Some_0,
                    },
                ),
            },
        }
    }
}

/// The classes row of one land-use entry: there is one where the entry has
/// a surface of at least 1 and a label.
pub open spec fn class_of(entry: Value, id: u64) -> Option<ClassesView> {
    match (json_member(entry, "surface"@), json_member(entry, "libregroupement"@)) {
        (Some(surface), Some(name)) => match (json_number_bits(surface), json_text(name)) {
            (Some(bits), Some(libelle)) => if reaches_one(bits) {
                Some(ClassesView { idg: id, libelle, surface: Binary64 { bits } })
            } else {
                None
            },
            _ => None,
        },
        _ => None,
    }
}

/// The classes rows of a list of land-use entries, in their order.
pub open spec fn classes_of(entries: Seq<Value>, id: u64) -> Seq<ClassesView>
    decreases entries.len(),
{
    if entries.len() == 0 {
        Seq::empty()
    } else {
        match class_of(entries.last(), id) {
            Some(row) => classes_of(entries.drop_last(), id).push(row),
            None => classes_of(entries.drop_last(), id),
        }
    }
}

/// The rows of a list, as what they hold.
pub open spec fn mutation_views(rows: Seq<Mutation>) -> Seq<MutationView> {
    Seq::new(rows.len(), |i: int| rows[i]@)
}

/// The rows of a list, as what they hold.
pub open spec fn classes_views(rows: Seq<Classes>) -> Seq<ClassesView> {
    Seq::new(rows.len(), |i: int| rows[i]@)
}

/// Reads a text where there is one.
fn unwrap_value(value: Option<&Value>) -> (r: Option<String>)
    ensures
        optional_text(r) == match value {
            Some(found) => json_text(*found),
            None => None,
        },
{
    match value {
        Some(found) => match text(found) {
            Some(content) => Some(content.to_owned()),
            None => None,
        },
        None => None,
    }
}

impl Adresse {
    /// Reads the address of a parcel from its list of addresses.
    pub fn extract(value: &Value) -> (r: Result<Adresse, ExtractError>)
        ensures
            match r {
                Ok(adresse) => adresse_of(*value) == Ok::<_, ExtractError>(adresse@),
                Err(e) => adresse_of(*value) == Err::<AdresseView, _>(e),
            },
    {
        let adresses: &Vec<Value> = match items(value) {
            Some(list) => list,
            None => {
                return Err(ExtractError::Missing(Field::Adresses));
            },
        };
        if adresses.len() == 0 {
            return Err(ExtractError::Missing(Field::Adresses));
        }
        let adresse: &Value = &adresses[0];
        let commune: Option<String> = unwrap_value(member(adresse, "commune"));
        if commune.is_none() {
            return Err(ExtractError::Missing(Field::Commune));
        }
        let codepostal: Option<String> = unwrap_value(member(adresse, "codepostal"));
        if codepostal.is_none() {
            return Err(ExtractError::Missing(Field::Codepostal));
        }
        Ok(
            Adresse {
                btq: unwrap_value(member(adresse, "btq")),
                voie: unwrap_value(member(adresse, "voie")),
                novoie: unwrap_value(member(adresse, "novoie")),
                codvoie: unwrap_value(member(adresse, "codvoie")),
                commune,
                typvoie: unwrap_value(member(adresse, "typvoie")),
                codepostal,
            },
        )
    }
}

impl Mutation {
    /// Reads the mutation row of a parcel.
    pub fn extract(
        map: &Value,
        shared_props: &SharedMutationProps,
        valeurfonc: Binary64,
        idmutation: u64,
        id: u64,
        schema: &Schema,
    ) -> (r: Result<Mutation, ExtractError>)
        ensures
            match r {
                Ok(row) => mutation_of(*map, shared_props@, valeurfonc, idmutation, id, schema@)
                    == Ok::<_, ExtractError>(row@),
                Err(e) => mutation_of(*map, shared_props@, valeurfonc, idmutation, id, schema@)
                    == Err::<MutationView, _>(e),
            },
    {
        let idpar: String = match text_field(map, "idpar") {
            Some(found) => found,
            None => {
                return Err(ExtractError::Missing(Field::Idpar));
            },
        };
        let vendu: bool = match flag_field(map, schema.sold_flag.as_str()) {
            Some(sold) => sold,
            None => match flag_field(map, schema.sold_flag_fallback.as_str()) {
                Some(sold) => sold,
                None => {
                    return Err(ExtractError::Missing(Field::Sold));
                },
            },
        };
        let adresses: &Value = match member(map, "adresses") {
            Some(found) => found,
            None => {
                return Err(ExtractError::Missing(Field::Adresses));
            },
        };
        let adresse: Adresse = match Adresse::extract(adresses) {
            Ok(found) => found,
            Err(e) => {
                return Err(e);
            },
        };
        Ok(
            Mutation {
                idg: id,
                idpar,
                idmutation,
                shared_props: shared_props.clone(),
                adresse,
                valeur_fonciere: valeurfonc,
                vendu,
            },
        )
    }
}

impl Classes {
    /// Reads the classes row of one land-use entry, where it has one.
    pub fn extract_one(entry: &Value, id: u64) -> (r: Option<Classes>)
        ensures
            match r {
                Some(row) => class_of(*entry, id) == Some(row@),
                None => class_of(*entry, id) is None,
            },
    {
        let surface: &Value = match member(entry, "surface") {
            Some(found) => found,
            None => {
                return None;
            },
        };
        let name: &Value = match member(entry, "libregroupement") {
            Some(found) => found,
            None => {
                return None;
            },
        };
        let bits: u64 = match number_bits(surface) {
            Some(found) => found,
            None => {
                return None;
            },
        };
        let libelle: String = match text(name) {
            Some(found) => found.to_owned(),
            None => {
                return None;
            },
        };
        let surface: Binary64 = Binary64 { bits };
        if !surface.at_least_one() {
            return None;
        }
        Some(Classes { idg: id, libelle, surface })
    }

    /// Reads the classes rows of a list of land-use entries. An entry that
    /// lacks a part, or whose surface is under 1, gives no row and no error.
    pub fn extract(values: &Vec<Value>, id: u64) -> (r: Result<Vec<Classes>, ExtractError>)
        ensures
            r is Ok,
            classes_views(r->Ok_0@) == classes_of(values@, id),
    {
        let mut rows: Vec<Classes> = Vec::new();
        let mut i: usize = 0;
        assert(values@.take(0) =~= Seq::<Value>::empty());
        assert(classes_views(rows@) =~= Seq::<ClassesView>::empty());
        while i < values.len()
            invariant
                0 <= i <= values.len(),
                classes_views(rows@) == classes_of(values@.take(i as int), id),
            decreases values.len() - i,
        {
            let ghost before = rows@;
            assert(values@.take(i + 1).drop_last() =~= values@.take(i as int));
            assert(values@.take(i + 1).last() == values@[i as int]);
            match Classes::extract_one(&values[i], id) {
                Some(row) => {
                    rows.push(row);
                    assert(classes_views(rows@) =~= classes_views(before).push(row@));
                },
                None => {},
            }
            i = i + 1;
        }
        assert(values@.take(i as int) =~= values@);
        Ok(rows)
    }
}

} // verus!
