use javaver::archive::get_class_files_in_jar;
use javaver::version::{JavaClass, JavaClassError, JavaVersion};
use std::io::Cursor;
use std::io::Write;
use zip::write::SimpleFileOptions;

fn class_bytes(major: u16) -> Vec<u8> {
    let [hi, lo] = major.to_be_bytes();
    vec![202, 254, 186, 190, 0, 0, hi, lo]
}

fn make_jar(entries: &[(&str, &[u8])]) -> Vec<u8> {
    let mut writer = zip::ZipWriter::new(Cursor::new(Vec::new()));
    let options = SimpleFileOptions::default();
    for (name, data) in entries {
        writer.start_file(*name, options).unwrap();
        writer.write_all(data).unwrap();
    }
    writer.finish().unwrap().into_inner()
}

#[test]
fn test_java_version_from_java_class() {
    let java_class = JavaClass(52);
    let java_version: JavaVersion = java_class.into();
    assert_eq!(java_version.0, 8);
}

#[test]
fn test_java_version_from_iter() {
    let classes = vec![JavaClass(50), JavaClass(52), JavaClass(51)];
    let version: JavaVersion = JavaVersion::from_iter(classes);
    assert_eq!(version.0, 8);
}

#[test]
fn test_java_version_from_empty_iter() {
    let classes: Vec<JavaClass> = vec![];
    let version: JavaVersion = JavaVersion::from_iter(classes);
    assert_eq!(version.0, 0);
}

#[test]
fn test_java_version_display() {
    let version = JavaVersion(11);
    let formatted = version.to_display_string();
    assert_eq!(formatted, "(Java 11)");
}

#[test]
fn test_java_class_new_valid() {
    let class_bytes = vec![
        202, 254, 186, 190, // magic
        0, 0, // minor version
        0, 52, // major version (Java 8)
    ];
    let result = JavaClass::new(&class_bytes);

    assert!(result.is_ok());
    let class = result.unwrap();
    assert_eq!(class.0, 52);
}

#[test]
fn test_java_class_new_insufficient_bytes() {
    let class_bytes = vec![202, 254, 186, 190, 0]; // Only 5 bytes
    let result = JavaClass::new(&class_bytes);

    assert!(matches!(result, Err(JavaClassError::InsufficientBytes(5))));
}

#[test]
fn test_java_class_new_invalid_magic() {
    let class_bytes = vec![
        1, 2, 3, 4, // wrong magic
        0, 0, // minor version
        0, 52, // major version
    ];
    let result = JavaClass::new(&class_bytes);

    assert!(matches!(result, Err(JavaClassError::NotAClassFile)));
}

#[test]
fn test_get_class_files_in_jar() {
    let data = class_bytes(52);
    let jar = make_jar(&[
        ("META-INF/MANIFEST.MF", b"Manifest-Version: 1.0\n"),
        ("a/B.class", &data),
        ("META-INF/versions/9/X.class", &data),
        ("a/b/C.txt", b"text"),
    ]);
    let archive = zip::ZipArchive::new(Cursor::new(jar)).unwrap();
    let names = get_class_files_in_jar(&archive);
    assert_eq!(names, vec!["a/B.class".to_string()]);
}

#[test]
fn test_metadata_exclusion_is_the_directory_prefix() {
    let data = class_bytes(52);
    let jar = make_jar(&[
        ("META-INF/A.class", &data),
        ("META-INFX/B.class", &data),
        ("META-INF.class", &data),
    ]);
    let archive = zip::ZipArchive::new(Cursor::new(jar)).unwrap();
    let names = get_class_files_in_jar(&archive);
    assert_eq!(
        names,
        vec!["META-INFX/B.class".to_string(), "META-INF.class".to_string()]
    );
}

#[test]
fn test_java_version_ordering() {
    let v8 = JavaVersion(8);
    let v11 = JavaVersion(11);
    let v17 = JavaVersion(17);

    assert!(v8 < v11);
    assert!(v11 < v17);
    assert!(v8 < v17);
}

#[test]
fn test_java_class_ordering() {
    let c50 = JavaClass(50);
    let c52 = JavaClass(52);
    let c55 = JavaClass(55);

    assert!(c50 < c52);
    assert!(c52 < c55);
    assert!(c50 < c55);
}

#[test]
fn test_java_version_display_multi_digit() {
    assert_eq!(JavaVersion(0).to_display_string(), "(Java 0)");
    assert_eq!(JavaVersion(8).to_display_string(), "(Java 8)");
    assert_eq!(JavaVersion(123).to_display_string(), "(Java 123)");
}

#[test]
fn test_java_version_wraps_below_offset() {
    let version: JavaVersion = JavaClass(0).into();
    assert_eq!(version.0, 65492);
}
