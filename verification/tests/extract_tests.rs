use dvf_pipeline::controller::{outcome_of_body, FailureClass, Outcome};
use dvf_pipeline::geojson::{
    geometry_parts, unwrap_coordinates, unwrap_geometry, unwrap_numbers, unwrap_positions,
};
use dvf_pipeline::geometry::GeometryError;
use dvf_pipeline::ids::IdGenerator;
use dvf_pipeline::tables::{
    Adresse, Binary64, Classes, ExtractError, Field, Mutation, Schema, SharedMutationProps,
};
use dvf_pipeline::transform::{
    extract_document, map_dispositions, map_parcelles, map_properties, shared_properties,
    transform_api_data,
};
use serde_json::Value;

fn schema() -> Schema {
    Schema::new("parcvendue".to_string(), "parcvendu".to_string())
}

fn json(text: &str) -> Value {
    serde_json::from_str(text).unwrap()
}

fn parcel(idpar: &str, surface: &str) -> String {
    format!(
        "{{\"idpar\":\"{}\",\"parcvendue\":true,\"adresses\":[{{\"commune\":\"Bourg\",\
         \"codepostal\":\"01000\",\"voie\":\"DES LILAS\",\"novoie\":\"12\"}}],\
         \"dcnt\":[{{\"surface\":{},\"libregroupement\":\"Jardin\"}}]}}",
        idpar, surface
    )
}

fn feature(parcels: &[String]) -> String {
    format!(
        "{{\"properties\":{{\"vefa\":false,\"datemut\":\"2021-03-04\",\
         \"typologie\":{{\"libelle\":\"Maison\"}},\"nature_mutation\":{{\"libelle\":\"Vente\"}},\
         \"dispositions\":[{{\"valeurfonc\":150000.5,\"idmutation\":42,\"parcelles\":[{}]}}]}}}}",
        parcels.join(",")
    )
}

fn document(features: &[String]) -> String {
    format!("{{\"features\":[{}]}}", features.join(","))
}

struct Run {
    ids: IdGenerator,
    mutations: Vec<Mutation>,
    classes: Vec<Classes>,
}

fn run() -> Run {
    Run { ids: IdGenerator::new(), mutations: Vec::new(), classes: Vec::new() }
}

fn transform(r: &mut Run, text: &str) -> Result<Vec<Option<ExtractError>>, ExtractError> {
    transform_api_data(text, &schema(), &mut r.ids, &mut r.mutations, &mut r.classes)
}

#[test]
fn id_generator_counts_from_zero() {
    let mut ids = IdGenerator::new();
    assert_eq!(ids.peek(), 0);
    assert_eq!(ids.next_id(), 0);
    assert_eq!(ids.next_id(), 1);
    assert_eq!(ids.peek(), 2);
    assert_eq!(ids.peek(), 2);
    assert_eq!(ids.next_id(), 2);
}

#[test]
fn small_surface_is_dropped_without_error() {
    let text = document(&[feature(&[parcel("A1", "0.5")]), feature(&[parcel("B2", "10")])]);
    let mut r = run();
    assert_eq!(transform(&mut r, &text), Ok(vec![None, None]));
    assert_eq!(r.mutations.len(), 2);
    assert_eq!(r.classes.len(), 1);
    assert_eq!(r.classes[0].idg, r.mutations[1].idg);
    assert_eq!(r.classes[0].libelle, "Jardin");
    assert_eq!(f64::from_bits(r.classes[0].surface.bits), 10.0);
}

#[test]
fn mutation_row_holds_the_fields_of_its_parcel() {
    let text = document(&[feature(&[parcel("01001000AB0001", "3")])]);
    let mut r = run();
    assert_eq!(transform(&mut r, &text), Ok(vec![None]));
    let m = &r.mutations[0];
    assert_eq!(m.idg, 0);
    assert_eq!(m.idpar, "01001000AB0001");
    assert_eq!(m.idmutation, 42);
    assert!(m.vendu);
    assert_eq!(f64::from_bits(m.valeur_fonciere.bits), 150000.5);
    assert!(!m.shared_props.vefa);
    assert_eq!(m.shared_props.typologie, "Maison");
    assert_eq!(m.shared_props.datemut, "2021-03-04");
    assert_eq!(m.shared_props.nature, "Vente");
    assert_eq!(m.adresse.commune.as_deref(), Some("Bourg"));
    assert_eq!(m.adresse.codepostal.as_deref(), Some("01000"));
    assert_eq!(m.adresse.voie.as_deref(), Some("DES LILAS"));
    assert_eq!(m.adresse.novoie.as_deref(), Some("12"));
    assert_eq!(m.adresse.btq, None);
    assert_eq!(m.adresse.codvoie, None);
    assert_eq!(m.adresse.typvoie, None);
}

#[test]
fn ids_are_contiguous_from_zero_over_a_run() {
    let first = document(&[
        feature(&[parcel("A", "2"), parcel("B", "2")]),
        feature(&[parcel("C", "2")]),
    ]);
    let second = document(&[feature(&[parcel("D", "2"), parcel("E", "2")])]);
    let mut r = run();
    transform(&mut r, &first).unwrap();
    transform(&mut r, &second).unwrap();
    let ids: Vec<u64> = r.mutations.iter().map(|m| m.idg).collect();
    assert_eq!(ids, vec![0, 1, 2, 3, 4]);
    let owners: Vec<u64> = r.classes.iter().map(|c| c.idg).collect();
    assert_eq!(owners, vec![0, 1, 2, 3, 4]);
    assert_eq!(r.ids.peek(), 5);
}

#[test]
fn failed_parcel_takes_no_id() {
    let broken = "{\"idpar\":\"X\",\"dcnt\":[],\"adresses\":[]}".to_string();
    let text = document(&[
        feature(&[parcel("A", "2"), broken, parcel("never", "2")]),
        feature(&[parcel("B", "2")]),
    ]);
    let mut r = run();
    assert_eq!(
        transform(&mut r, &text),
        Ok(vec![Some(ExtractError::Missing(Field::Sold)), None])
    );
    let rows: Vec<(u64, &str)> = r.mutations.iter().map(|m| (m.idg, m.idpar.as_str())).collect();
    assert_eq!(rows, vec![(0, "A"), (1, "B")]);
}

#[test]
fn failed_feature_does_not_stop_the_next() {
    let no_properties = "{\"type\":\"Feature\"}".to_string();
    let text = document(&[no_properties, feature(&[parcel("A", "2")])]);
    let mut r = run();
    assert_eq!(
        transform(&mut r, &text),
        Ok(vec![Some(ExtractError::Missing(Field::Properties)), None])
    );
    assert_eq!(r.mutations.len(), 1);
}

#[test]
fn body_that_is_no_document_is_malformed() {
    let mut r = run();
    assert_eq!(transform(&mut r, "<html>"), Err(ExtractError::Malformed));
    assert_eq!(transform(&mut r, ""), Err(ExtractError::Malformed));
    assert_eq!(transform(&mut r, "{\"features\":"), Err(ExtractError::Malformed));
    assert_eq!(transform(&mut r, "[]"), Err(ExtractError::Malformed));
    assert_eq!(transform(&mut r, "{\"features\":{}}"), Err(ExtractError::Malformed));
    assert_eq!(transform(&mut r, "{\"other\":[]}"), Err(ExtractError::Malformed));
    assert!(r.mutations.is_empty());
    assert_eq!(r.ids.peek(), 0);
}

#[test]
fn document_without_features_gives_no_row() {
    let mut r = run();
    assert_eq!(transform(&mut r, "{\"features\":[]}"), Ok(Vec::new()));
    assert!(r.mutations.is_empty() && r.classes.is_empty());
}

fn properties_failure(properties: &str) -> Option<ExtractError> {
    let mut r = run();
    let value = json(properties);
    map_properties(&value, &schema(), &mut r.ids, &mut r.mutations, &mut r.classes).err()
}

#[test]
fn each_shared_property_is_required() {
    let missing = |e| Some(ExtractError::Missing(e));
    assert_eq!(properties_failure("{}"), missing(Field::Vefa));
    assert_eq!(properties_failure("{\"vefa\":\"no\"}"), missing(Field::Vefa));
    assert_eq!(properties_failure("{\"vefa\":true}"), missing(Field::Datemut));
    assert_eq!(
        properties_failure("{\"vefa\":true,\"datemut\":\"2020-01-01\"}"),
        missing(Field::Typologie)
    );
    assert_eq!(
        properties_failure("{\"vefa\":true,\"datemut\":\"2020-01-01\",\"typologie\":\"Maison\"}"),
        missing(Field::Typologie)
    );
    assert_eq!(
        properties_failure(
            "{\"vefa\":true,\"datemut\":\"2020-01-01\",\"typologie\":{\"libelle\":\"M\"}}"
        ),
        missing(Field::Nature)
    );
    assert_eq!(
        properties_failure(
            "{\"vefa\":true,\"datemut\":\"2020-01-01\",\"typologie\":{\"libelle\":\"M\"},\
             \"nature_mutation\":{\"libelle\":\"V\"}}"
        ),
        missing(Field::Dispositions)
    );
    assert_eq!(
        properties_failure(
            "{\"vefa\":true,\"datemut\":\"2020-01-01\",\"typologie\":{\"libelle\":\"M\"},\
             \"nature_mutation\":{\"libelle\":\"V\"},\"dispositions\":[]}"
        ),
        None
    );
}

#[test]
fn properties_must_be_an_object() {
    let mut r = run();
    let text = "{\"features\":[{\"properties\":[1,2]},{\"properties\":null},7]}";
    let missing = Some(ExtractError::Missing(Field::Properties));
    assert_eq!(transform(&mut r, text), Ok(vec![missing, missing, missing]));
}

fn dispositions_failure(dispositions: &str) -> (Option<ExtractError>, usize) {
    let mut r = run();
    let value = json(dispositions);
    let shared = SharedMutationProps::new(true, "T".to_string(), "D".to_string(), "N".to_string());
    let result = map_dispositions(
        value.as_array().unwrap(),
        &shared,
        &schema(),
        &mut r.ids,
        &mut r.mutations,
        &mut r.classes,
    );
    (result.err(), r.mutations.len())
}

#[test]
fn each_part_of_a_disposition_is_required() {
    let missing = |e| Some(ExtractError::Missing(e));
    assert_eq!(dispositions_failure("[{}]").0, missing(Field::Parcelles));
    assert_eq!(dispositions_failure("[{\"parcelles\":3}]").0, missing(Field::Parcelles));
    assert_eq!(dispositions_failure("[{\"parcelles\":[]}]").0, missing(Field::Valeurfonc));
    assert_eq!(
        dispositions_failure("[{\"parcelles\":[],\"valeurfonc\":\"1\"}]").0,
        missing(Field::Valeurfonc)
    );
    assert_eq!(
        dispositions_failure("[{\"parcelles\":[],\"valeurfonc\":1}]").0,
        missing(Field::Idmutation)
    );
    assert_eq!(
        dispositions_failure("[{\"parcelles\":[],\"valeurfonc\":1,\"idmutation\":-4}]").0,
        missing(Field::Idmutation)
    );
    assert_eq!(
        dispositions_failure("[{\"parcelles\":[],\"valeurfonc\":1,\"idmutation\":1.5}]").0,
        missing(Field::Idmutation)
    );
    assert_eq!(
        dispositions_failure("[{\"parcelles\":[],\"valeurfonc\":1,\"idmutation\":4}]").0,
        None
    );
}

#[test]
fn entries_that_are_no_objects_are_passed_over() {
    let good = format!(
        "{{\"valeurfonc\":1,\"idmutation\":4,\"parcelles\":[3,\"x\",{},null]}}",
        parcel("A", "2")
    );
    let list = format!("[1,\"two\",{},[],null]", good);
    assert_eq!(dispositions_failure(&list), (None, 1));
}

#[test]
fn rows_before_a_failure_stay() {
    let good = format!("{{\"valeurfonc\":1,\"idmutation\":4,\"parcelles\":[{}]}}", parcel("A", "2"));
    let list = format!("[{},{{\"parcelles\":[]}},{}]", good, good);
    assert_eq!(dispositions_failure(&list), (Some(ExtractError::Missing(Field::Valeurfonc)), 1));
}

fn parcels_failure(parcels: &str) -> Option<ExtractError> {
    let mut r = run();
    let value = json(parcels);
    let shared = SharedMutationProps::new(true, "T".to_string(), "D".to_string(), "N".to_string());
    map_parcelles(
        value.as_array().unwrap(),
        &shared,
        Binary64 { bits: 2.5f64.to_bits() },
        9,
        &schema(),
        &mut r.ids,
        &mut r.mutations,
        &mut r.classes,
    )
    .err()
}

#[test]
fn each_part_of_a_parcel_is_required() {
    let missing = |e| Some(ExtractError::Missing(e));
    assert_eq!(parcels_failure("[{}]"), missing(Field::Dcnt));
    assert_eq!(parcels_failure("[{\"dcnt\":{}}]"), missing(Field::Dcnt));
    assert_eq!(parcels_failure("[{\"dcnt\":[]}]"), missing(Field::Idpar));
    assert_eq!(parcels_failure("[{\"dcnt\":[],\"idpar\":7}]"), missing(Field::Idpar));
    assert_eq!(parcels_failure("[{\"dcnt\":[],\"idpar\":\"P\"}]"), missing(Field::Sold));
    assert_eq!(
        parcels_failure("[{\"dcnt\":[],\"idpar\":\"P\",\"parcvendue\":1}]"),
        missing(Field::Sold)
    );
    assert_eq!(
        parcels_failure("[{\"dcnt\":[],\"idpar\":\"P\",\"parcvendue\":false}]"),
        missing(Field::Adresses)
    );
    assert_eq!(
        parcels_failure("[{\"dcnt\":[],\"idpar\":\"P\",\"parcvendue\":false,\"adresses\":[]}]"),
        missing(Field::Adresses)
    );
    assert_eq!(
        parcels_failure("[{\"dcnt\":[],\"idpar\":\"P\",\"parcvendue\":false,\"adresses\":[{}]}]"),
        missing(Field::Commune)
    );
    assert_eq!(
        parcels_failure(
            "[{\"dcnt\":[],\"idpar\":\"P\",\"parcvendue\":false,\
             \"adresses\":[{\"commune\":\"C\"}]}]"
        ),
        missing(Field::Codepostal)
    );
    assert_eq!(
        parcels_failure(
            "[{\"dcnt\":[],\"idpar\":\"P\",\"parcvendue\":false,\
             \"adresses\":[{\"commune\":\"C\",\"codepostal\":\"1\"}]}]"
        ),
        None
    );
}

#[test]
fn sold_flag_is_read_under_either_name() {
    let shared = SharedMutationProps::new(true, "T".to_string(), "D".to_string(), "N".to_string());
    let address = "\"adresses\":[{\"commune\":\"C\",\"codepostal\":\"1\"}]";
    let extract = |flag: &str| {
        let value = json(&format!("{{\"idpar\":\"P\",{},{}}}", flag, address));
        Mutation::extract(&value, &shared, Binary64 { bits: 0 }, 1, 7, &schema()).map(|m| m.vendu)
    };
    assert_eq!(extract("\"parcvendue\":true"), Ok(true));
    assert_eq!(extract("\"parcvendu\":true"), Ok(true));
    assert_eq!(extract("\"parcvendue\":false,\"parcvendu\":true"), Ok(false));
    assert_eq!(extract("\"parcvendue\":\"x\",\"parcvendu\":true"), Ok(true));
    assert_eq!(extract("\"sold\":true"), Err(ExtractError::Missing(Field::Sold)));
    let other = Schema::new("sold".to_string(), "parcvendue".to_string());
    let value = json(&format!("{{\"idpar\":\"P\",\"sold\":false,{}}}", address));
    let row = Mutation::extract(&value, &shared, Binary64 { bits: 0 }, 1, 7, &other).unwrap();
    assert!(!row.vendu);
    assert_eq!(row.idg, 7);
}

#[test]
fn address_is_the_first_of_the_list() {
    let value = json(
        "[{\"commune\":\"First\",\"codepostal\":\"1\",\"btq\":\"B\",\"codvoie\":\"0042\",\
         \"typvoie\":\"RUE\",\"novoie\":5},{\"commune\":\"Second\",\"codepostal\":\"2\"}]",
    );
    let adresse = Adresse::extract(&value).unwrap();
    assert_eq!(adresse.commune.as_deref(), Some("First"));
    assert_eq!(adresse.codepostal.as_deref(), Some("1"));
    assert_eq!(adresse.btq.as_deref(), Some("B"));
    assert_eq!(adresse.codvoie.as_deref(), Some("0042"));
    assert_eq!(adresse.typvoie.as_deref(), Some("RUE"));
    assert_eq!(adresse.novoie, None);
    assert_eq!(adresse.voie, None);
    assert_eq!(
        Adresse::extract(&json("{}")).err(),
        Some(ExtractError::Missing(Field::Adresses))
    );
    assert_eq!(
        Adresse::extract(&json("[3]")).err(),
        Some(ExtractError::Missing(Field::Commune))
    );
}

#[test]
fn classes_keep_surfaces_of_at_least_one() {
    let entries = json(
        "[{\"surface\":1,\"libregroupement\":\"a\"},{\"surface\":0.999,\"libregroupement\":\"b\"},\
         {\"surface\":1.0,\"libregroupement\":\"c\"},{\"surface\":-5,\"libregroupement\":\"d\"},\
         {\"surface\":0,\"libregroupement\":\"e\"},{\"surface\":1e300,\"libregroupement\":\"f\"},\
         {\"surface\":12.5},{\"libregroupement\":\"g\"},{\"surface\":\"3\",\"libregroupement\":\"h\"},\
         {\"surface\":3,\"libregroupement\":4},7,{\"surface\":18446744073709551615,\
         \"libregroupement\":\"i\"},{\"surface\":-0.0,\"libregroupement\":\"j\"}]",
    );
    let rows = Classes::extract(entries.as_array().unwrap(), 11).unwrap();
    let kept: Vec<(&str, f64, u64)> =
        rows.iter().map(|c| (c.libelle.as_str(), f64::from_bits(c.surface.bits), c.idg)).collect();
    assert_eq!(
        kept,
        vec![("a", 1.0, 11), ("c", 1.0, 11), ("f", 1e300, 11), ("i", 18446744073709551615.0, 11)]
    );
    assert!(Classes::extract_one(&json("{\"surface\":0.5,\"libregroupement\":\"x\"}"), 1).is_none());
}

#[test]
fn threshold_on_bit_patterns_agrees_with_the_numbers() {
    let samples = [
        0.0, -0.0, 0.5, 0.9999999999999999, 1.0, 1.0000000000000002, 2.0, 10.0, 1e-300, 1e300,
        f64::MAX, f64::MIN_POSITIVE, f64::INFINITY, -1.0, -1e300, f64::NEG_INFINITY, f64::MIN,
    ];
    for number in samples {
        assert_eq!(Binary64 { bits: number.to_bits() }.at_least_one(), number >= 1.0, "{}", number);
    }
    assert!(!Binary64 { bits: f64::NAN.to_bits() }.at_least_one());
    assert!(!Binary64 { bits: u64::MAX }.at_least_one());
}

#[test]
fn shared_properties_are_read_once_for_all_parcels() {
    let value = json(
        "{\"vefa\":true,\"datemut\":\"2019-12-31\",\"typologie\":{\"libelle\":\"Appartement\"},\
         \"nature_mutation\":{\"libelle\":\"Echange\"}}",
    );
    let props = shared_properties(&value).unwrap();
    assert!(props.vefa);
    assert_eq!(props.typologie, "Appartement");
    assert_eq!(props.datemut, "2019-12-31");
    assert_eq!(props.nature, "Echange");
    let copy = props.clone();
    assert_eq!(copy.typologie, "Appartement");
    assert_eq!((copy.vefa, copy.datemut, copy.nature), (true, props.datemut, props.nature));
}

#[test]
fn decoded_document_gives_the_same_rows_as_its_text() {
    let text = document(&[feature(&[parcel("A", "4"), parcel("B", "0.1")])]);
    let mut from_text = run();
    transform(&mut from_text, &text).unwrap();
    let mut from_value = run();
    let value = json(&text);
    let failures = extract_document(
        &value,
        &schema(),
        &mut from_value.ids,
        &mut from_value.mutations,
        &mut from_value.classes,
    );
    assert_eq!(failures, Ok(vec![None]));
    assert_eq!(from_text.mutations.len(), 2);
    assert_eq!(from_value.mutations.len(), 2);
    assert_eq!(from_text.classes.len(), 1);
    assert_eq!(from_value.classes.len(), 1);
    assert_eq!(from_value.mutations[1].idpar, "B");
}

fn degrees(rings: &[Vec<Vec<u64>>]) -> Vec<Vec<Vec<f64>>> {
    rings
        .iter()
        .map(|ring| ring.iter().map(|p| p.iter().map(|b| f64::from_bits(*b)).collect()).collect())
        .collect()
}

#[test]
fn coordinates_are_read_as_bit_patterns() {
    let value = json("[[[2.5,48.25],[3,49],[1,2]],[[0.0,-1.5,3.0]],[]]");
    let rings = unwrap_coordinates(value.as_array().unwrap()).unwrap();
    assert_eq!(
        degrees(&rings),
        vec![
            vec![vec![2.5, 48.25], vec![3.0, 49.0], vec![1.0, 2.0]],
            vec![vec![0.0, -1.5, 3.0]],
            vec![],
        ]
    );
    assert_eq!(unwrap_coordinates(&Vec::new()), Ok(Vec::new()));
}

#[test]
fn ring_entry_that_is_no_position_is_reported() {
    let value = json("[[[0,0],[0,10],\"x\",[10,10],[10,0],[0,0]]]");
    assert_eq!(
        unwrap_coordinates(value.as_array().unwrap()),
        Err(GeometryError::NotPlanar)
    );
    let keyed = json("[[[0,0],{\"a\":[1]},[0,0]]]");
    assert_eq!(unwrap_coordinates(keyed.as_array().unwrap()), Err(GeometryError::NotPlanar));
    assert_eq!(unwrap_positions(json("[[0,0],7]").as_array().unwrap()), Err(GeometryError::NotPlanar));
}

#[test]
fn coordinate_that_is_no_number_is_reported() {
    let value = json("[[[0,0],[1,\"y\",2,null],[0,0]]]");
    assert_eq!(
        unwrap_coordinates(value.as_array().unwrap()),
        Err(GeometryError::NotPlanar)
    );
    assert_eq!(unwrap_numbers(json("[1,null]").as_array().unwrap()), Err(GeometryError::NotPlanar));
    assert_eq!(unwrap_numbers(json("[1,true]").as_array().unwrap()), Err(GeometryError::NotPlanar));
    let read = unwrap_numbers(json("[1,-2.5]").as_array().unwrap()).unwrap();
    assert_eq!(read, vec![1.0f64.to_bits(), (-2.5f64).to_bits()]);
}

#[test]
fn entry_that_is_no_ring_is_reported() {
    let value = json("[[[0,0],[0,1],[1,1],[0,0]],7]");
    assert_eq!(
        unwrap_coordinates(value.as_array().unwrap()),
        Err(GeometryError::NotPlanar)
    );
}

#[test]
fn geometry_is_taken_apart() {
    let value = json("{\"type\":\"Polygon\",\"coordinates\":[[[1,2],[3,4]]],\"bbox\":[0]}");
    let (kind, coordinates) = geometry_parts(&value).unwrap();
    assert_eq!(kind, "Polygon");
    assert_eq!(coordinates.len(), 1);
    let (kind, rings) = unwrap_geometry(&value).unwrap();
    assert_eq!(kind, "Polygon");
    assert_eq!(degrees(&rings), vec![vec![vec![1.0, 2.0], vec![3.0, 4.0]]]);
}

#[test]
fn geometry_without_type_has_an_empty_kind() {
    let (kind, _) = geometry_parts(&json("{\"coordinates\":[]}")).unwrap();
    assert_eq!(kind, "");
    let (kind, _) = geometry_parts(&json("{\"type\":7,\"coordinates\":[]}")).unwrap();
    assert_eq!(kind, "");
    let (kind, _) = unwrap_geometry(&json("{\"type\":\"Point\",\"coordinates\":[]}")).unwrap();
    assert_eq!(kind, "Point");
}

#[test]
fn value_that_is_no_geometry_is_reported() {
    for text in ["[]", "null", "7", "{}", "{\"type\":\"Polygon\"}", "{\"coordinates\":{}}"] {
        assert_eq!(geometry_parts(&json(text)).err(), Some(GeometryError::NotGeometry), "{}", text);
        assert_eq!(unwrap_geometry(&json(text)).err(), Some(GeometryError::NotGeometry), "{}", text);
    }
    let broken = json("{\"type\":\"Polygon\",\"coordinates\":[[[0,0],\"x\"]]}");
    assert!(geometry_parts(&broken).is_ok());
    assert_eq!(unwrap_geometry(&broken).err(), Some(GeometryError::NotPlanar));
}

#[test]
fn body_decides_between_success_and_failure() {
    let mut r = run();
    let good = transform(&mut r, "{\"features\":[{}]}");
    assert_eq!(outcome_of_body(&good), Outcome::Success);
    let bad = transform(&mut r, "<html>");
    assert_eq!(outcome_of_body(&bad), Outcome::Failure(FailureClass::Other));
}

fn parcel_with(idpar: &str, dcnt: &str) -> String {
    format!(
        "{{\"idpar\":\"{}\",\"parcvendue\":true,\"adresses\":[{{\"commune\":\"C\",\
         \"codepostal\":\"1\"}}],\"dcnt\":[{}]}}",
        idpar, dcnt
    )
}

fn entry(surface: &str, label: &str) -> String {
    format!("{{\"surface\":{},\"libregroupement\":\"{}\"}}", surface, label)
}

#[test]
fn classes_rows_stand_in_blocks_in_the_order_of_the_parcels() {
    let first = parcel_with("A", &[entry("3", "a1"), entry("0.2", "a2"), entry("7", "a3")].join(","));
    let second = parcel_with("B", "");
    let third = parcel_with("C", &[entry("0.9", "c1"), "{\"surface\":4}".to_string()].join(","));
    let fourth = parcel_with("D", &[entry("1", "d1"), entry("2", "d2")].join(","));
    let text = document(&[feature(&[first, second]), feature(&[third, fourth])]);
    let mut r = run();
    assert_eq!(transform(&mut r, &text), Ok(vec![None, None]));
    let parcels: Vec<(u64, &str)> = r.mutations.iter().map(|m| (m.idg, m.idpar.as_str())).collect();
    assert_eq!(parcels, vec![(0, "A"), (1, "B"), (2, "C"), (3, "D")]);
    let rows: Vec<(u64, &str)> = r.classes.iter().map(|c| (c.idg, c.libelle.as_str())).collect();
    assert_eq!(rows, vec![(0, "a1"), (0, "a3"), (3, "d1"), (3, "d2")]);
}

#[test]
fn classes_rows_of_a_later_document_follow_those_of_an_earlier() {
    let one = document(&[feature(&[parcel_with("A", &entry("5", "a"))])]);
    let two = document(&[feature(&[
        parcel_with("B", &entry("0.5", "b")),
        parcel_with("C", &[entry("6", "c1"), entry("8", "c2")].join(",")),
    ])]);
    let mut r = run();
    transform(&mut r, &one).unwrap();
    transform(&mut r, &two).unwrap();
    let rows: Vec<(u64, &str)> = r.classes.iter().map(|c| (c.idg, c.libelle.as_str())).collect();
    assert_eq!(rows, vec![(0, "a"), (2, "c1"), (2, "c2")]);
    assert_eq!(r.mutations.len(), 3);
}
