use rust_api_hub::handlers::{
    import_tasks, import_tasks_csv, import_tasks_file, import_tasks_json, ApiError, ImportInput,
};
use rust_api_hub::import::{detect_format, plan_delimited, ImportError, ImportFormat, RowRef};
use rust_api_hub::multipart::extract_file_part;
use rust_api_hub::store::TaskStore;
use rust_api_hub::task::TaskCreate;

fn app_state() -> TaskStore {
    TaskStore::new()
}

fn create(title: &str, description: &str) -> TaskCreate {
    TaskCreate { title: title.into(), description: description.into() }
}

fn multipart(boundary: &str, csv: &str) -> Vec<u8> {
    let mut body = String::new();
    body.push_str(&format!("--{}\r\n", boundary));
    body.push_str("Content-Disposition: form-data; name=\"file\"; filename=\"tasks.csv\"\r\n");
    body.push_str("Content-Type: text/csv\r\n\r\n");
    body.push_str(csv);
    body.push_str(&format!("\r\n--{}--\r\n", boundary));
    body.into_bytes()
}

fn import_by_type(repo: &mut TaskStore, content_type: &str, body: Vec<u8>) -> Result<rust_api_hub::import::ImportReport, ApiError> {
    match detect_format(content_type) {
        Some(ImportFormat::Delimited) => import_tasks(repo, ImportInput::Delimited(body)),
        Some(ImportFormat::Multipart) => import_tasks(
            repo,
            ImportInput::Multipart { body, content_type: content_type.as_bytes().to_vec() },
        ),
        Some(ImportFormat::Structured) => panic!("structured input is decoded before import"),
        None => Err(ApiError::Import(ImportError::UnsupportedFormat)),
    }
}

#[test]
fn import_json_inserts_all() {
    let mut repo = app_state();
    let payload = vec![create("a", "d1"), create("b", "d2")];
    let resp = import_tasks_json(&mut repo, payload);
    assert_eq!(resp.imported, 2);
    assert_eq!(repo.count(), 2);
}

#[test]
fn import_csv_parses_and_inserts() {
    let mut repo = app_state();
    let csv = "title,description\nrow1,desc1\nrow2,desc2\n";
    let resp = import_tasks_csv(&mut repo, csv.as_bytes()).unwrap();
    assert_eq!(resp.imported, 2);
    assert_eq!(repo.count(), 2);
}

#[test]
fn import_csv_bad_returns_400() {
    let mut repo = app_state();
    let bad = "not,a,csv\nthis is not valid rows";
    assert!(import_tasks_csv(&mut repo, bad.as_bytes()).is_err());
    assert_eq!(repo.count(), 0);
}

#[test]
fn import_json_valid_inserts_all() {
    let mut repo = app_state();
    let payload = vec![create("A", "d1"), create("B", "d2")];
    let resp = import_tasks(&mut repo, ImportInput::Structured(payload)).unwrap();
    assert_eq!(resp.imported, 2);
    assert_eq!(repo.count(), 2);
    assert!(resp.tasks.len() >= 2);
}

#[test]
fn import_json_partial_failure_reports_errors() {
    let mut repo = app_state();
    let payload = vec![create("Good", "d1"), create("", "d-bad")];
    let resp = import_tasks(&mut repo, ImportInput::Structured(payload)).unwrap();
    assert_eq!(resp.imported, 1);
    assert_eq!(resp.failed, 1);
    assert!(!resp.errors.is_empty());
    assert_eq!(resp.errors[0].at, RowRef::Index(1));
    assert_eq!(repo.count(), 1);
}

#[test]
fn import_csv_partial_rows_are_reported() {
    let mut repo = app_state();
    let csv = "title,description\nOkay,desc1\n,missing-title\n";
    let resp = import_by_type(&mut repo, "text/csv", csv.as_bytes().to_vec()).unwrap();
    assert_eq!(resp.imported, 1);
    assert_eq!(resp.failed, 1);
    assert_eq!(repo.count(), 1);
    assert!(resp.errors.iter().any(|e| !e.message.is_empty()));
    assert_eq!(resp.errors[0].at, RowRef::Row(2));
    assert_eq!(resp.tasks[0].title, "Okay");
}

#[test]
fn file_import_valid_csv_inserts_all() {
    let mut repo = app_state();
    let body = multipart("BOUND", "title,description\nOne,desc1\nTwo,desc2\n");
    let resp = import_tasks_file(&mut repo, b"multipart/form-data; boundary=BOUND", &body).unwrap();
    assert_eq!(resp.imported, 2);
    assert_eq!(repo.count(), 2);
}

#[test]
fn file_import_partial_failure_reports_rows() {
    let mut repo = app_state();
    let body = multipart("BOUND", "title,description\nGood,ok\n,missing-title\n");
    let resp = import_tasks_file(&mut repo, b"multipart/form-data; boundary=BOUND", &body).unwrap();
    assert_eq!(resp.imported, 1);
    assert_eq!(resp.failed, 1);
    assert_eq!(repo.count(), 1);
    assert!(resp.errors.iter().any(|e| matches!(e.at, RowRef::Row(_))));
}

#[test]
fn file_import_too_large_returns_413() {
    let mut repo = app_state();
    let mut csv = String::from("title,description\n");
    for _ in 0..6000 {
        csv.push_str(&format!("tline,{}\n", "x".repeat(1000)));
    }
    let body = multipart("BOUND", &csv);
    assert_eq!(
        import_tasks_file(&mut repo, b"multipart/form-data; boundary=BOUND", &body).unwrap_err(),
        ApiError::Import(ImportError::PayloadTooLarge)
    );
    assert_eq!(repo.count(), 0);
}

#[test]
fn multipart_through_unified_import() {
    let mut repo = app_state();
    let body = multipart("xyz", "title,description\nA,1\n");
    let resp = import_by_type(&mut repo, "multipart/form-data; boundary=xyz", body).unwrap();
    assert_eq!(resp.imported, 1);
    assert_eq!(resp.tasks[0].title, "A");
    assert_eq!(resp.tasks[0].description, "1");
}

#[test]
fn multipart_rejections() {
    let body = multipart("BOUND", "title,description\nA,1\n");
    assert_eq!(extract_file_part(&body, b"text/csv"), Err(ImportError::NotMultipart));
    assert_eq!(extract_file_part(&body, b"multipart/form-data"), Err(ImportError::NotMultipart));
    assert_eq!(extract_file_part(&body, b"multipart/form-data; boundary=  "), Err(ImportError::NotMultipart));
    let other = b"--BOUND\r\nContent-Disposition: form-data; name=\"other\"\r\n\r\nx\r\n--BOUND--\r\n".to_vec();
    assert_eq!(
        extract_file_part(&other, b"multipart/form-data; boundary=BOUND"),
        Err(ImportError::FilePartNotFound)
    );
    let bad = vec![b'-', b'-', 0xff, 0xfe];
    assert_eq!(
        extract_file_part(&bad, b"multipart/form-data; boundary=BOUND"),
        Err(ImportError::InvalidEncoding)
    );
}

#[test]
fn multipart_extracts_file_body() {
    let body = multipart("B", "title,description\nx,y");
    let got = extract_file_part(&body, b"multipart/form-data; boundary= B ").unwrap();
    assert_eq!(got, b"title,description\nx,y".to_vec());
}

#[test]
fn undecodable_payload_is_rejected_without_changes() {
    let mut repo = app_state();
    let before = repo.count();
    let bad = vec![b't', b'i', 0xc3, 0x28, b'\n'];
    assert_eq!(
        import_tasks(&mut repo, ImportInput::Delimited(bad.clone())).unwrap_err(),
        ApiError::Import(ImportError::InvalidEncoding)
    );
    assert_eq!(import_tasks_csv(&mut repo, &bad).unwrap_err(), ApiError::Import(ImportError::InvalidEncoding));
    assert_eq!(repo.count(), before);
}

#[test]
fn format_detection() {
    assert_eq!(detect_format(""), Some(ImportFormat::Structured));
    assert_eq!(detect_format("application/json"), Some(ImportFormat::Structured));
    assert_eq!(detect_format("text/csv"), Some(ImportFormat::Delimited));
    assert_eq!(detect_format("multipart/form-data; boundary=x"), Some(ImportFormat::Multipart));
    assert_eq!(detect_format("text/plain"), None);
}

#[test]
fn delimited_rows_missing_columns_and_bad_records() {
    let records: Vec<Result<Vec<String>, String>> = vec![
        Ok(vec!["name".into(), "description".into()]),
        Ok(vec!["x".into(), "y".into()]),
        Err("boom".into()),
    ];
    let c = plan_delimited(&records).unwrap();
    assert!(c.valid.is_empty());
    assert_eq!(c.errors.len(), 2);
    assert_eq!(c.errors[0].at, RowRef::Row(1));
    assert_eq!(c.errors[0].message, "csv parse error: missing field `title`");
    assert_eq!(c.errors[1].at, RowRef::Row(2));
    assert_eq!(c.errors[1].message, "csv parse error: boom");
    let header_broken: Vec<Result<Vec<String>, String>> = vec![Err("bad".into())];
    assert!(plan_delimited(&header_broken).is_err());
    let empty: Vec<Result<Vec<String>, String>> = Vec::new();
    let c = plan_delimited(&empty).unwrap();
    assert!(c.valid.is_empty() && c.errors.is_empty());
}

#[test]
fn delimited_columns_found_by_name() {
    let mut repo = app_state();
    let csv = "extra,description,title\n1,first,One\n2,second,  \n";
    let resp = import_tasks(&mut repo, ImportInput::Delimited(csv.as_bytes().to_vec())).unwrap();
    assert_eq!(resp.imported, 1);
    assert_eq!(resp.tasks[0].title, "One");
    assert_eq!(resp.tasks[0].description, "first");
    assert_eq!(resp.errors[0].at, RowRef::Row(2));
    assert_eq!(resp.errors[0].message, "title must not be empty");
}

#[test]
fn all_or_nothing_import_reports_empty_titles_per_row() {
    let mut repo = app_state();
    let csv = "title,description\nGood,ok\n,missing-title\n";
    let resp = import_tasks_csv(&mut repo, csv.as_bytes()).unwrap();
    assert_eq!(resp.imported, 1);
    assert_eq!(resp.failed, 1);
    assert_eq!(resp.errors[0].at, RowRef::Row(2));
    let short = "title,description\nA,1\nB\n";
    assert!(import_tasks_csv(&mut repo, short.as_bytes()).is_err());
    assert_eq!(repo.count(), 1);
}
