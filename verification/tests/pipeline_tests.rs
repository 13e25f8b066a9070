use javaver::archive::ExtractedJarError;
use javaver::pipeline::{
    check_threshold, process_class, process_input, process_jar, route_of, PipelineError, Route,
};
use javaver::version::{JavaClassError, JavaVersion};
use std::io::Cursor;
use std::io::Write;
use zip::write::SimpleFileOptions;

fn class_bytes(major: u16) -> Vec<u8> {
    let [hi, lo] = major.to_be_bytes();
    vec![202, 254, 186, 190, 0, 0, hi, lo]
}

fn make_jar(entries: &[(&str, &[u8])]) -> Vec<u8> {
    let mut writer = zip::ZipWriter::new(Cursor::new(Vec::new()));
    let options = SimpleFileOptions::default();
    for (name, data) in entries {
        writer.start_file(*name, options).unwrap();
        writer.write_all(data).unwrap();
    }
    writer.finish().unwrap().into_inner()
}

#[test]
fn test_route_of_by_extension() {
    assert_eq!(route_of("lib/app.jar"), Route::Jar);
    assert_eq!(route_of("a/B.class"), Route::Class);
    assert_eq!(route_of("notes.txt"), Route::Unknown);
    assert_eq!(route_of("noextension"), Route::Unknown);
}

#[test]
fn test_class_file_release_17() {
    let bytes = class_bytes(61);
    let verdict = process_class(&bytes).unwrap();
    assert_eq!(verdict, JavaVersion(17));
    let outcome = check_threshold(&vec![verdict], None);
    assert!(outcome.is_ok());
}

#[test]
fn test_class_file_release_17_exceeds_ceiling_11() {
    let bytes = class_bytes(61);
    let verdict = process_input(Route::Class, &bytes).unwrap();
    let outcome = check_threshold(&vec![verdict], Some(11));
    let failure = outcome.unwrap_err();
    assert_eq!(failure.offending, vec![JavaVersion(17)]);
    assert_eq!(failure.ceiling, 11);
}

#[test]
fn test_jar_reports_highest_release() {
    let a = class_bytes(50);
    let b = class_bytes(52);
    let c = class_bytes(55);
    let jar = make_jar(&[("A.class", &a), ("B.class", &b), ("C.class", &c)]);
    let verdict = process_jar(&jar).unwrap();
    assert_eq!(verdict, JavaVersion(11));
}

#[test]
fn test_unrecognized_input() {
    let bytes = vec![0u8; 10];
    let result = process_input(Route::Unknown, &bytes);
    assert!(matches!(result, Err(PipelineError::UnrecognizedInput)));
}

#[test]
fn test_pipeline_runs_twice_identically() {
    let a = class_bytes(52);
    let jar = make_jar(&[("A.class", &a)]);
    let first = process_input(Route::Jar, &jar);
    let second = process_input(Route::Jar, &jar);
    assert_eq!(first, second);
    assert_eq!(first, Ok(JavaVersion(8)));
}

#[test]
fn test_not_an_archive() {
    let bytes = vec![1u8, 2, 3, 4, 5, 6, 7, 8, 9, 10];
    let result = process_jar(&bytes);
    assert!(matches!(result, Err(ExtractedJarError::NotAJar)));
}

#[test]
fn test_archive_too_short() {
    let bytes = vec![0x50u8, 0x4B];
    let result = process_jar(&bytes);
    assert!(matches!(result, Err(ExtractedJarError::InsufficientBytes(2))));
}

#[test]
fn test_no_class_files_distinct_from_bad_archive() {
    let jar = make_jar(&[
        ("README.txt", b"hello"),
        ("META-INF/Hidden.class", &class_bytes(52)),
    ]);
    let result = process_jar(&jar);
    assert!(matches!(result, Err(ExtractedJarError::NoClassFiles)));

    // Right signature, but no readable central directory behind it.
    let mut corrupt = vec![0x50u8, 0x4B, 0x03, 0x04];
    corrupt.extend_from_slice(&[0u8; 32]);
    let result = process_jar(&corrupt);
    assert!(matches!(result, Err(ExtractedJarError::Zip)));
}

#[test]
fn test_jar_entry_that_is_not_a_class_is_fatal() {
    let good = class_bytes(52);
    let jar = make_jar(&[("A.class", &good), ("Bad.class", &[9u8; 16])]);
    let result = process_jar(&jar);
    assert!(matches!(
        result,
        Err(ExtractedJarError::JavaClass(JavaClassError::NotAClassFile))
    ));
}

#[test]
fn test_jar_truncated_entry_reports_count() {
    let jar = make_jar(&[("Tiny.class", &[202u8, 254, 186][..])]);
    let result = process_jar(&jar);
    assert!(matches!(
        result,
        Err(ExtractedJarError::JavaClass(JavaClassError::InsufficientBytes(3)))
    ));
}

#[test]
fn test_jar_release_zero_counts_as_no_class_files() {
    let jar = make_jar(&[("A.class", &class_bytes(44))]);
    let result = process_jar(&jar);
    assert!(matches!(result, Err(ExtractedJarError::NoClassFiles)));
}

#[test]
fn test_unknown_route_reads_class_first() {
    let bytes = class_bytes(61);
    let result = process_input(Route::Unknown, &bytes);
    assert_eq!(result, Ok(JavaVersion(17)));
}

#[test]
fn test_unknown_route_falls_back_to_archive() {
    let a = class_bytes(55);
    let jar = make_jar(&[("A.class", &a)]);
    let result = process_input(Route::Unknown, &jar);
    assert_eq!(result, Ok(JavaVersion(11)));
}

#[test]
fn test_unknown_route_short_input_is_a_class_error() {
    let bytes = vec![0u8; 5];
    let result = process_input(Route::Unknown, &bytes);
    assert!(matches!(
        result,
        Err(PipelineError::Class(JavaClassError::InsufficientBytes(5)))
    ));
}

#[test]
fn test_unknown_route_keeps_specific_archive_error() {
    let mut corrupt = vec![0x50u8, 0x4B, 0x03, 0x04];
    corrupt.extend_from_slice(&[0u8; 32]);
    let result = process_input(Route::Unknown, &corrupt);
    assert!(matches!(
        result,
        Err(PipelineError::Jar(ExtractedJarError::Zip))
    ));
}

#[test]
fn test_threshold_sorts_and_dedups_offenders() {
    let versions = vec![
        JavaVersion(17),
        JavaVersion(8),
        JavaVersion(17),
        JavaVersion(12),
    ];
    let failure = check_threshold(&versions, Some(10)).unwrap_err();
    assert_eq!(failure.offending, vec![JavaVersion(12), JavaVersion(17)]);
    assert_eq!(failure.ceiling, 10);
}

#[test]
fn test_threshold_without_ceiling_always_passes() {
    let versions = vec![JavaVersion(17), JavaVersion(99)];
    assert!(check_threshold(&versions, None).is_ok());
}

#[test]
fn test_threshold_at_ceiling_passes() {
    let versions = vec![JavaVersion(11)];
    assert!(check_threshold(&versions, Some(11)).is_ok());
}
