use std::io::Read;
use std::io::Write;
use tempfile::NamedTempFile;
use validated_forms::classify_part;
use validated_forms::decode;
use validated_forms::Classification;
use validated_forms::DecodeError;
use validated_forms::Decoder;
use validated_forms::FromMultipart;
use validated_forms::GetError;
use validated_forms::MultipartField;
use validated_forms::MultipartFile;
use validated_forms::MultipartLoadConfig;
use validated_forms::MultipartText;
use validated_forms::MultipartType;
use validated_forms::MultipartTypeSpecial;
use validated_forms::Multiparts;
use validated_forms::Part;
use validated_forms::PartHeaders;
use validated_forms::PartKind;

fn text_headers(name: &str) -> PartHeaders {
    PartHeaders {
        form_data: true,
        name: Some(name.to_string()),
        filename: None,
        content_type: None,
    }
}

fn text_part(name: &str, value: &str) -> Part<NamedTempFile> {
    Part {
        headers: text_headers(name),
        chunks: vec![value.as_bytes().to_vec()],
        file: None,
    }
}

fn file_part(name: &str, filename: &str, content: &[u8]) -> Part<NamedTempFile> {
    let ntf = NamedTempFile::new().unwrap();
    ntf.as_file().write_all(content).unwrap();
    Part {
        headers: PartHeaders {
            form_data: true,
            name: Some(name.to_string()),
            filename: Some(filename.to_string()),
            content_type: Some("text/plain".to_string()),
        },
        chunks: vec![content.to_vec()],
        file: Some(ntf),
    }
}

#[test]
fn test() {
    let parts = vec![
        text_part("string", "Hello World"),
        text_part("int", "69"),
        file_part("file", "a.txt", b"File contents"),
    ];
    let mut k = decode(parts, MultipartLoadConfig::default()).unwrap();
    assert_eq!(k.len(), 3);

    let mut data = String::new();
    let f: MultipartFile<NamedTempFile> = MultipartType::get(&mut k, "file").unwrap();
    f.file.reopen().unwrap().read_to_string(&mut data).unwrap();

    let string: String = MultipartType::get(&mut k, "string").unwrap();
    let int: i32 = MultipartType::get(&mut k, "int").unwrap();

    assert_eq!(string, "Hello World");
    assert_eq!(int, 69);
    assert_eq!(data, "File contents");
    assert_eq!(f.size, 13);
    assert_eq!(f.name, "file");
    assert_eq!(f.filename.as_deref(), Some("a.txt"));
}

#[test]
fn file_size_limit_test() {
    let parts = vec![file_part("file", "a.txt", b"More than two bytes!!!")];
    let err = decode(parts, MultipartLoadConfig::default().file_limit(2)).unwrap_err();
    assert_eq!(err, DecodeError::FileBudgetExceeded);
    assert_eq!(err.message(), "A payload reached size limit.");
    // An over-budget request is a client error, distinct from a server-side
    // storage fault.
    assert!(err.is_client_error());
    assert!(!DecodeError::IoError.is_client_error());
}

#[derive(Debug)]
struct Two {
    int: i32,
}

impl<F> FromMultipart<F> for Two {
    fn from_multipart(form: &mut Multiparts<F>) -> Result<Self, GetError> {
        Ok(Two {
            int: MultipartType::get(form, "int")?,
        })
    }
}

#[test]
fn it_works() {
    let mut multipart: Multiparts<NamedTempFile> = Vec::new();
    multipart.push(MultipartField::Text(MultipartText {
        name: "int".to_string(),
        text: "5".to_string(),
    }));
    let result = Two::from_multipart(&mut multipart);
    println!("{:?}", result);
    assert_eq!(result.unwrap().int, 5);
}

#[test]
fn decode_within_budgets_succeeds() {
    // Total text bytes: 3 + 4 = 7; total file bytes: 5; three parts. With
    // budgets exactly at those totals the decode succeeds and yields one
    // field per part.
    let parts = vec![
        text_part("a", "abc"),
        text_part("b", "defg"),
        file_part("f", "f.bin", b"12345"),
    ];
    let config = MultipartLoadConfig::default()
        .text_limit(7)
        .file_limit(5)
        .max_parts(3);
    let fields = decode(parts, config).unwrap();
    assert_eq!(fields.len(), 3);
}

#[test]
fn text_budget_exceeded_mid_stream() {
    // The first part consumes 3 of 5 text bytes; the second needs 4 and
    // first crosses the budget, so the decode fails with the text budget
    // error and no field list at all.
    let parts = vec![text_part("a", "abc"), text_part("b", "defg")];
    let err = decode(parts, MultipartLoadConfig::default().text_limit(5)).unwrap_err();
    assert_eq!(err, DecodeError::TextBudgetExceeded);
}

#[test]
fn part_count_limit() {
    let two = vec![text_part("a", "x"), text_part("b", "y")];
    let fields = decode(two, MultipartLoadConfig::default().max_parts(2)).unwrap();
    assert_eq!(fields.len(), 2);

    let three = vec![text_part("a", "x"), text_part("b", "y"), text_part("c", "z")];
    let err = decode(three, MultipartLoadConfig::default().max_parts(2)).unwrap_err();
    assert_eq!(err, DecodeError::PartCountExceeded);
}

#[test]
fn utf8_text_round_trip() {
    let value = "H\u{e9}llo \u{2603}";
    let parts = vec![text_part("greeting", value)];
    let mut fields = decode(parts, MultipartLoadConfig::default()).unwrap();
    let s: String = MultipartType::get(&mut fields, "greeting").unwrap();
    assert_eq!(s, value);
}

#[test]
fn invalid_utf8_rejected() {
    // Two valid bytes, then a lone continuation byte: the decode fails with
    // the byte offset of the longest valid prefix, never with replacement.
    let parts = vec![Part::<NamedTempFile> {
        headers: text_headers("t"),
        chunks: vec![b"ab".to_vec(), vec![0xbf]],
        file: None,
    }];
    let err = decode(parts, MultipartLoadConfig::default()).unwrap_err();
    assert_eq!(err, DecodeError::Utf8Error { valid_up_to: 2 });
}

#[test]
fn header_errors_abort_decode() {
    let mut p = text_part("a", "x");
    p.headers.form_data = false;
    let err = decode(vec![p], MultipartLoadConfig::default()).unwrap_err();
    assert_eq!(err, DecodeError::HeaderError);

    let mut q = text_part("a", "x");
    q.headers.name = None;
    let err = decode(vec![q], MultipartLoadConfig::default()).unwrap_err();
    assert_eq!(err, DecodeError::HeaderError);
}

#[test]
fn get_one_determinism() {
    let mut none: Multiparts<NamedTempFile> = Vec::new();
    let r: Result<i64, GetError> = MultipartType::get(&mut none, "n");
    assert!(matches!(r, Err(GetError::NotFound(n)) if n == "n"));

    let mut one = decode(
        vec![text_part("n", "42")],
        MultipartLoadConfig::default(),
    )
    .unwrap();
    let v: i64 = MultipartType::get(&mut one, "n").unwrap();
    assert_eq!(v, 42);

    let mut two = decode(
        vec![text_part("n", "42"), text_part("n", "43")],
        MultipartLoadConfig::default(),
    )
    .unwrap();
    let r: Result<i64, GetError> = MultipartType::get(&mut two, "n");
    assert!(matches!(r, Err(GetError::DuplicateField(n)) if n == "n"));
}

#[test]
fn type_error_names_field_and_type() {
    let mut fields = decode(
        vec![text_part("n", "not a number")],
        MultipartLoadConfig::default(),
    )
    .unwrap();
    let r: Result<i32, GetError> = MultipartType::get(&mut fields, "n");
    match r {
        Err(GetError::TypeError(name, ty)) => {
            assert_eq!(name, "n");
            assert_eq!(ty, "i32");
        }
        other => panic!("{:?}", other),
    }
}

#[test]
fn file_extraction_removes_entry() {
    let parts = vec![file_part("f", "a.bin", b"xyz"), text_part("t", "kept")];
    let mut fields = decode(parts, MultipartLoadConfig::default()).unwrap();
    assert_eq!(fields.len(), 2);

    let f: MultipartFile<NamedTempFile> = MultipartType::get(&mut fields, "f").unwrap();
    assert_eq!(f.size, 3);
    assert_eq!(fields.len(), 1);

    // A second extraction cannot observe the same file again.
    let again: Option<MultipartFile<NamedTempFile>> =
        MultipartTypeSpecial::get(&mut fields, "f").unwrap();
    assert!(again.is_none());

    // Text extraction never mutates the list, so it can be repeated.
    let t1: String = MultipartType::get(&mut fields, "t").unwrap();
    let t2: String = MultipartType::get(&mut fields, "t").unwrap();
    assert_eq!(t1, "kept");
    assert_eq!(t2, "kept");
    assert_eq!(fields.len(), 1);
}

#[test]
fn repeated_fields_extract_in_order() {
    let parts = vec![
        file_part("a", "1.bin", b"one"),
        text_part("t", "7"),
        file_part("a", "2.bin", b"three"),
        file_part("b", "3.bin", b"x"),
        text_part("t", "8"),
    ];
    let mut fields = decode(parts, MultipartLoadConfig::default()).unwrap();

    let ints: Vec<i64> = MultipartTypeSpecial::get(&mut fields, "t").unwrap();
    assert_eq!(ints, vec![7, 8]);

    let files: Vec<MultipartFile<NamedTempFile>> =
        MultipartTypeSpecial::get(&mut fields, "a").unwrap();
    assert_eq!(files.len(), 2);
    assert_eq!(files[0].filename.as_deref(), Some("1.bin"));
    assert_eq!(files[1].filename.as_deref(), Some("2.bin"));

    // The rest of the list keeps its order: two text fields and file "b".
    assert_eq!(fields.len(), 3);
    let b: MultipartFile<NamedTempFile> = MultipartType::get(&mut fields, "b").unwrap();
    assert_eq!(b.size, 1);
}

#[test]
fn optional_extraction() {
    let mut fields = decode(
        vec![text_part("n", "5")],
        MultipartLoadConfig::default(),
    )
    .unwrap();
    let some: Option<i64> = MultipartTypeSpecial::get(&mut fields, "n").unwrap();
    assert_eq!(some, Some(5));
    let nothing: Option<i64> = MultipartTypeSpecial::get(&mut fields, "missing").unwrap();
    assert_eq!(nothing, None);
}

#[test]
fn classifier_decisions() {
    // An absent content type defaults to text/plain, so the part is text.
    let c = classify_part(&text_headers("a")).unwrap();
    assert!(matches!(c, Classification::Text { name } if name == "a"));

    // A declared non-text content type makes the part a file upload.
    let mut h = text_headers("a");
    h.content_type = Some("application/octet-stream".to_string());
    let c = classify_part(&h).unwrap();
    assert!(
        matches!(c, Classification::File { name, filename: None, mime }
            if name == "a" && mime == "application/octet-stream")
    );

    // A filename makes the part a file upload even when it is text/plain.
    let mut h = text_headers("a");
    h.filename = Some("a.txt".to_string());
    let c = classify_part(&h).unwrap();
    assert!(
        matches!(c, Classification::File { name, filename: Some(f), mime }
            if name == "a" && f == "a.txt" && mime == "text/plain")
    );

    let mut h = text_headers("a");
    h.form_data = false;
    assert_eq!(classify_part(&h).unwrap_err(), DecodeError::HeaderError);
}

#[test]
fn decoder_streams_chunks() {
    // A multi-byte character split across two chunks decodes fine, because
    // decoding happens once the whole part has arrived.
    let mut d: Decoder<NamedTempFile> = Decoder::new(MultipartLoadConfig::default());
    let kind = d.begin_part(&text_headers("greeting")).unwrap();
    assert_eq!(kind, PartKind::Text);
    d.text_chunk(&[0x48, 0xc3]).unwrap();
    d.text_chunk(&[0xa9]).unwrap();
    d.finish_text().unwrap();
    let mut fields = d.finish();
    let s: String = MultipartType::get(&mut fields, "greeting").unwrap();
    assert_eq!(s, "H\u{e9}");
}

#[test]
fn decoder_reserves_file_chunks() {
    let mut d: Decoder<NamedTempFile> = Decoder::new(MultipartLoadConfig::default().file_limit(4));
    let mut h = text_headers("f");
    h.filename = Some("f.bin".to_string());
    assert_eq!(d.begin_part(&h).unwrap(), PartKind::File);
    d.file_chunk(3).unwrap();
    let err = d.file_chunk(2).unwrap_err();
    assert_eq!(err, DecodeError::FileBudgetExceeded);
}

fn file_with_name(filename: Option<&str>) -> MultipartFile<NamedTempFile> {
    MultipartFile {
        file: NamedTempFile::new().unwrap(),
        size: 0,
        name: "f".to_string(),
        filename: filename.map(|s| s.to_string()),
        mime: "application/octet-stream".to_string(),
    }
}

#[test]
fn filename_extensions() {
    assert_eq!(file_with_name(Some("a.txt")).get_extension(), Some("txt"));
    assert_eq!(
        file_with_name(Some("archive.tar.gz")).get_extension(),
        Some("gz")
    );
    assert_eq!(file_with_name(Some(".hidden")).get_extension(), None);
    assert_eq!(file_with_name(Some("noext")).get_extension(), None);
    assert_eq!(file_with_name(Some("dir.d/na")).get_extension(), None);
    assert_eq!(file_with_name(Some("dir/a.b")).get_extension(), Some("b"));
    assert_eq!(file_with_name(Some("a.")).get_extension(), Some(""));
    assert_eq!(file_with_name(None).get_extension(), None);
}

#[test]
fn many_text_extraction() {
    // Zero matches is not an error for the many cardinality.
    let mut empty = decode(Vec::<Part<NamedTempFile>>::new(), MultipartLoadConfig::default())
        .unwrap();
    let vs: Vec<i64> = MultipartTypeSpecial::get(&mut empty, "x").unwrap();
    assert!(vs.is_empty());

    // One unparseable match fails the whole extraction.
    let mut fields = decode(
        vec![text_part("x", "1"), text_part("x", "nope")],
        MultipartLoadConfig::default(),
    )
    .unwrap();
    let r: Result<Vec<i64>, GetError> = MultipartTypeSpecial::get(&mut fields, "x");
    assert!(matches!(r, Err(GetError::TypeError(_, _))));
}

#[test]
fn failed_file_extraction_keeps_fields() {
    // Two files share a name: exactly-one extraction fails with
    // DuplicateField and must leave the form untouched, so neither file is
    // lost to the error.
    let parts = vec![
        file_part("f", "1.bin", b"one"),
        file_part("f", "2.bin", b"two"),
    ];
    let mut fields = decode(parts, MultipartLoadConfig::default()).unwrap();

    let r: Result<MultipartFile<NamedTempFile>, GetError> = MultipartType::get(&mut fields, "f");
    assert!(matches!(r, Err(GetError::DuplicateField(n)) if n == "f"));
    assert_eq!(fields.len(), 2);

    let r: Result<Option<MultipartFile<NamedTempFile>>, GetError> =
        MultipartTypeSpecial::get(&mut fields, "f");
    assert!(matches!(r, Err(GetError::DuplicateField(_))));
    assert_eq!(fields.len(), 2);

    // A not-found failure touches nothing either.
    let r: Result<MultipartFile<NamedTempFile>, GetError> =
        MultipartType::get(&mut fields, "missing");
    assert!(matches!(r, Err(GetError::NotFound(_))));
    assert_eq!(fields.len(), 2);

    // Both files are still there and extractable at the right cardinality.
    let files: Vec<MultipartFile<NamedTempFile>> =
        MultipartTypeSpecial::get(&mut fields, "f").unwrap();
    assert_eq!(files.len(), 2);
    assert_eq!(files[0].filename.as_deref(), Some("1.bin"));
    assert_eq!(files[1].filename.as_deref(), Some("2.bin"));
    assert!(fields.is_empty());
}

#[test]
fn extraction_errors_are_client_errors() {
    assert!(GetError::NotFound("f".to_string()).is_client_error());
    assert!(GetError::TypeError("f".to_string(), "i32".to_string()).is_client_error());
    assert!(GetError::DuplicateField("f".to_string()).is_client_error());
}

#[test]
fn filename_extensions_ignore_trailing_components() {
    // Trailing separators and trailing `.` components are skipped, as a
    // path lookup would skip them; a final `..` component names no file.
    assert_eq!(file_with_name(Some("a.txt/")).get_extension(), Some("txt"));
    assert_eq!(file_with_name(Some("a.txt//")).get_extension(), Some("txt"));
    assert_eq!(file_with_name(Some("a.txt/.")).get_extension(), Some("txt"));
    assert_eq!(file_with_name(Some("a/./")).get_extension(), None);
    assert_eq!(file_with_name(Some("a/..")).get_extension(), None);
    assert_eq!(file_with_name(Some("..")).get_extension(), None);
    assert_eq!(file_with_name(Some("..a")).get_extension(), Some("a"));
    assert_eq!(file_with_name(Some("a..")).get_extension(), Some(""));
    assert_eq!(file_with_name(Some("/")).get_extension(), None);
}
