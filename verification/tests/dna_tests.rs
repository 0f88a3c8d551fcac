use blend_file_reader::dna::{Dna, DnaField, DnaStruct};

#[test]
fn test_dna_creation() {
    let dna = Dna { structs: Vec::new(), type_sizes: Vec::new() };

    assert!(dna.structs.is_empty());
    assert!(dna.type_sizes.is_empty());
}

#[test]
fn test_empty_dna_data() {
    let result = Dna::parse_dna_data(&[]);
    assert!(result.is_ok());
}

#[test]
fn test_catalog_lookup() {
    let object_struct = DnaStruct {
        name: "Object".to_string(),
        fields: vec![DnaField {
            name: "loc".to_string(),
            type_label: "float".to_string(),
            offset: 104,
            size: 12,
        }],
        size: 1440,
    };
    let dna = Dna {
        structs: vec![("Object".to_string(), object_struct)],
        type_sizes: vec![("float".to_string(), 4)],
    };

    assert_eq!(dna.get_struct("Object").unwrap().size, 1440);
    assert!(dna.get_struct("Mesh").is_none());
    assert_eq!(dna.get_type_size("float"), Some(4));
    assert_eq!(dna.get_type_size("double"), None);
}
