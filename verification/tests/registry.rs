use video_store::fileid::fileid_to_string;
use video_store::fileid::RANDOM_VERSION;
use video_store::fileid::VERSION_MASK;
use video_store::files::entry_of;
use video_store::files::supported;
use video_store::files::DeleteErrorResponse;
use video_store::files::Download;
use video_store::files::DownloadErrorResponse;
use video_store::files::DownloadOkResponse;
use video_store::files::File;
use video_store::files::Resource;
use video_store::files::UploadErrorResponse;
use video_store::files::UploadedFile;
use video_store::files::LOCATION;
use video_store::files::MAXIMUM_FILE_SIZE;
use video_store::files::MP4;
use video_store::files::MPEG;

const FIRST: u128 = 0xa1a2a3a4b1b2c1c2d1d2d3d4d5d6d7d8;
const SECOND: u128 = 0x550e8400e29b41d4a716446655440000;
const STAMP: &str = "2023-04-01T10:20:30.123456789Z";

fn add(resource: &mut Resource, id: u128, name: &str) -> Result<String, UploadErrorResponse> {
    resource.register(id, name.to_string(), MP4.to_string(), 100, STAMP.to_string())
}

fn sorted(mut listing: Vec<UploadedFile>) -> Vec<UploadedFile> {
    listing.sort_by(|a, b| a.fileid.cmp(&b.fileid));
    listing
}

/// The two maps are in step: every file that is listed can be looked up and
/// blocks its own name, and nothing else is in the listing.
fn assert_in_step(resource: &Resource, expected: &[(u128, &str)]) {
    let listing = sorted(resource.list());
    let mut wanted: Vec<(String, String)> =
        expected.iter().map(|(id, name)| (fileid_to_string(*id), name.to_string())).collect();
    wanted.sort();
    let got: Vec<(String, String)> =
        listing.iter().map(|entry| (entry.fileid.clone(), entry.name.clone())).collect();
    assert_eq!(got, wanted);
    assert_eq!(resource.len(), expected.len());
    for (id, name) in expected {
        assert_eq!(resource.get(*id).unwrap().name, *name);
        assert_eq!(
            resource.check_upload(Some(name), Some(MP4)),
            Err(UploadErrorResponse::FileExists)
        );
    }
}

#[test]
fn constants_are_those_of_the_service() {
    assert_eq!(MAXIMUM_FILE_SIZE, 1024 * 1024 * 1024);
    assert_eq!(MP4, "video/mp4");
    assert_eq!(MPEG, "video/mpeg");
    assert_eq!(LOCATION, "./storage/");
}

#[test]
fn only_two_content_types_are_supported() {
    assert!(supported("video/mp4"));
    assert!(supported("video/mpeg"));
    assert!(!supported("video/mp4 "));
    assert!(!supported("video/MP4"));
    assert!(!supported("video/webm"));
    assert!(!supported("text/plain"));
    assert!(!supported(""));
}

#[test]
fn new_registry_is_empty() {
    let resource = Resource::new();
    assert_eq!(resource.len(), 0);
    assert!(resource.list().is_empty());
    assert!(resource.get(FIRST).is_none());
    assert_eq!(resource.storage().bucket_count(), 10);
    assert_eq!(resource.storage().replica_count(), 3);
}

#[test]
fn upload_without_a_file_name_is_an_internal_error() {
    let resource = Resource::new();
    assert_eq!(resource.check_upload(None, Some(MP4)), Err(UploadErrorResponse::InternalError));
    assert_eq!(resource.check_upload(None, None), Err(UploadErrorResponse::InternalError));
    assert_eq!(resource.upload(None, Some(MP4)), Err(UploadErrorResponse::InternalError));
}

#[test]
fn upload_of_a_taken_name_is_refused() {
    let mut resource = Resource::new();
    assert!(add(&mut resource, FIRST, "a.mp4").is_ok());
    assert_eq!(
        resource.check_upload(Some("a.mp4"), Some(MP4)),
        Err(UploadErrorResponse::FileExists)
    );
    assert_eq!(resource.upload(Some("a.mp4"), Some(MPEG)), Err(UploadErrorResponse::FileExists));
}

#[test]
fn content_type_is_looked_at_before_the_name() {
    let mut resource = Resource::new();
    assert!(add(&mut resource, FIRST, "a.mp4").is_ok());
    assert_eq!(
        resource.check_upload(Some("a.mp4"), Some("text/plain")),
        Err(UploadErrorResponse::UnsupportedMediaType)
    );
    assert_eq!(
        resource.check_upload(Some("a.mp4"), None),
        Err(UploadErrorResponse::UnsupportedMediaType)
    );
    assert_eq!(
        resource.upload(Some("a.mp4"), Some("video/webm")),
        Err(UploadErrorResponse::UnsupportedMediaType)
    );
    assert_eq!(
        resource.check_upload(Some("a.mp4"), Some(MPEG)),
        Err(UploadErrorResponse::FileExists)
    );
}

#[test]
fn missing_file_name_is_reported_before_the_content_type() {
    let resource = Resource::new();
    assert_eq!(
        resource.check_upload(None, Some("text/plain")),
        Err(UploadErrorResponse::InternalError)
    );
}

#[test]
fn register_looks_at_the_content_type_before_the_name() {
    let mut resource = Resource::new();
    assert!(add(&mut resource, FIRST, "a.mp4").is_ok());
    let refused = resource.register(
        SECOND,
        "a.mp4".to_string(),
        "text/plain".to_string(),
        1,
        STAMP.to_string(),
    );
    assert_eq!(refused, Err(UploadErrorResponse::UnsupportedMediaType));
    let refused = resource.register(
        FIRST,
        "b.mp4".to_string(),
        "text/plain".to_string(),
        1,
        STAMP.to_string(),
    );
    assert_eq!(refused, Err(UploadErrorResponse::UnsupportedMediaType));
    assert_in_step(&resource, &[(FIRST, "a.mp4")]);
}

#[test]
fn listed_identifier_names_the_file_again() {
    let mut resource = Resource::new();
    let id = resource.upload(Some("a.mp4"), Some(MP4)).unwrap();
    assert!(add(&mut resource, id, "a.mp4").is_ok());
    let listing = resource.list();
    assert_eq!(listing.len(), 1);
    let download = resource.download(&listing[0].fileid).unwrap();
    assert_eq!(download.id, id);
    assert_eq!(download.filename, "a.mp4");
    assert_eq!(resource.delete(&listing[0].fileid), Ok(id));
    assert_eq!(resource.len(), 0);
}

#[test]
fn upload_of_an_unsupported_content_type_is_refused() {
    let resource = Resource::new();
    assert_eq!(
        resource.check_upload(Some("a.txt"), Some("text/plain")),
        Err(UploadErrorResponse::UnsupportedMediaType)
    );
    assert_eq!(
        resource.check_upload(Some("a.mp4"), None),
        Err(UploadErrorResponse::UnsupportedMediaType)
    );
    assert_eq!(
        resource.upload(Some("a.mp4"), Some("video/webm")),
        Err(UploadErrorResponse::UnsupportedMediaType)
    );
}

#[test]
fn upload_that_passes_draws_a_random_identifier() {
    let resource = Resource::new();
    assert_eq!(resource.check_upload(Some("a.mp4"), Some(MP4)), Ok(()));
    assert_eq!(resource.check_upload(Some("a.mpg"), Some(MPEG)), Ok(()));
    let first = resource.upload(Some("a.mp4"), Some(MP4)).unwrap();
    let second = resource.upload(Some("a.mp4"), Some(MP4)).unwrap();
    assert_ne!(first, second);
    assert_eq!(first & VERSION_MASK, RANDOM_VERSION);
    assert_eq!(resource.len(), 0);
}

#[test]
fn register_inserts_the_record_and_reports_the_location() {
    let mut resource = Resource::new();
    let location =
        resource.register(FIRST, "a.mp4".to_string(), MP4.to_string(), 1234, STAMP.to_string());
    assert_eq!(location, Ok("./storage/a1a2a3a4-b1b2-c1c2-d1d2-d3d4d5d6d7d8".to_string()));
    let file = resource.get(FIRST).unwrap();
    assert_eq!(file.name, "a.mp4");
    assert_eq!(file.content_type, "video/mp4");
    assert_eq!(file.size, 1234);
    assert_eq!(file.created_at, STAMP);
    assert_eq!(file.download_cnt, 0);
    assert_eq!(resource.len(), 1);
}

#[test]
fn register_takes_an_upload_through() {
    let mut resource = Resource::new();
    let id = resource.upload(Some("clip.mpg"), Some(MPEG)).unwrap();
    let location =
        resource.register(id, "clip.mpg".to_string(), MPEG.to_string(), 7, STAMP.to_string());
    assert_eq!(location, Ok(format!("./storage/{}", fileid_to_string(id))));
    assert_eq!(resource.get(id).unwrap().content_type, "video/mpeg");
}

#[test]
fn register_looks_at_the_name_again() {
    let mut resource = Resource::new();
    assert_eq!(resource.check_upload(Some("a.mp4"), Some(MP4)), Ok(()));
    assert_eq!(resource.check_upload(Some("a.mp4"), Some(MP4)), Ok(()));
    assert!(add(&mut resource, FIRST, "a.mp4").is_ok());
    assert_eq!(add(&mut resource, SECOND, "a.mp4"), Err(UploadErrorResponse::FileExists));
    assert_in_step(&resource, &[(FIRST, "a.mp4")]);
    assert!(resource.get(SECOND).is_none());
}

#[test]
fn same_name_registers_exactly_once() {
    let mut resource = Resource::new();
    let mut accepted = 0;
    let mut conflicts = 0;
    for id in 1..=20u128 {
        match add(&mut resource, id, "same.mp4") {
            Ok(_) => accepted += 1,
            Err(UploadErrorResponse::FileExists) => conflicts += 1,
            Err(other) => panic!("unexpected refusal {:?}", other),
        }
    }
    assert_eq!(accepted, 1);
    assert_eq!(conflicts, 19);
    assert_in_step(&resource, &[(1, "same.mp4")]);
}

#[test]
fn register_refuses_an_unsupported_content_type() {
    let mut resource = Resource::new();
    let refused = resource.register(
        FIRST,
        "a.txt".to_string(),
        "text/plain".to_string(),
        1,
        STAMP.to_string(),
    );
    assert_eq!(refused, Err(UploadErrorResponse::UnsupportedMediaType));
    assert_eq!(resource.len(), 0);
    assert_eq!(resource.check_upload(Some("a.txt"), Some(MP4)), Ok(()));
}

#[test]
fn register_refuses_a_taken_identifier() {
    let mut resource = Resource::new();
    assert!(add(&mut resource, FIRST, "a.mp4").is_ok());
    assert_eq!(add(&mut resource, FIRST, "b.mp4"), Err(UploadErrorResponse::InternalError));
    assert_in_step(&resource, &[(FIRST, "a.mp4")]);
    assert_eq!(resource.check_upload(Some("b.mp4"), Some(MP4)), Ok(()));
}

#[test]
fn taken_name_is_reported_before_a_taken_identifier() {
    let mut resource = Resource::new();
    assert!(add(&mut resource, FIRST, "a.mp4").is_ok());
    assert_eq!(add(&mut resource, FIRST, "a.mp4"), Err(UploadErrorResponse::FileExists));
}

#[test]
fn lookup_gives_name_and_content_type() {
    let mut resource = Resource::new();
    assert!(add(&mut resource, FIRST, "a.mp4").is_ok());
    let download = resource.lookup(FIRST).unwrap();
    assert_eq!(download.id, FIRST);
    assert_eq!(download.filename, "a.mp4");
    assert_eq!(download.content_type, "video/mp4");
    assert_eq!(resource.lookup(SECOND).err(), Some(DownloadErrorResponse::NotFound));
}

#[test]
fn download_reads_the_identifier_from_text() {
    let mut resource = Resource::new();
    assert!(add(&mut resource, FIRST, "a.mp4").is_ok());
    let download = resource.download("a1a2a3a4-b1b2-c1c2-d1d2-d3d4d5d6d7d8").unwrap();
    assert_eq!(download.id, FIRST);
    assert_eq!(download.filename, "a.mp4");
    let simple = resource.download("a1a2a3a4b1b2c1c2d1d2d3d4d5d6d7d8").unwrap();
    assert_eq!(simple.id, FIRST);
}

#[test]
fn download_of_an_unknown_file_is_not_found() {
    let mut resource = Resource::new();
    assert!(add(&mut resource, FIRST, "a.mp4").is_ok());
    assert_eq!(
        resource.download("550e8400-e29b-41d4-a716-446655440000").err(),
        Some(DownloadErrorResponse::NotFound)
    );
    assert_eq!(resource.download("a.mp4").err(), Some(DownloadErrorResponse::NotFound));
    assert_eq!(resource.download("").err(), Some(DownloadErrorResponse::NotFound));
}

#[test]
fn respond_hands_out_the_bytes_by_content_type() {
    let mp4 = Download { id: FIRST, filename: "a.mp4".to_string(), content_type: MP4.to_string() };
    match mp4.respond(vec![1, 2, 3]) {
        Ok(DownloadOkResponse::MP4(attachment)) => {
            assert_eq!(attachment.filename, "a.mp4");
            assert_eq!(attachment.data, vec![1, 2, 3]);
        },
        other => panic!("unexpected response {:?}", other),
    }
    let mpeg =
        Download { id: FIRST, filename: "b.mpg".to_string(), content_type: MPEG.to_string() };
    match mpeg.respond(vec![4]) {
        Ok(DownloadOkResponse::Mpeg(attachment)) => {
            assert_eq!(attachment.filename, "b.mpg");
            assert_eq!(attachment.data, vec![4]);
        },
        other => panic!("unexpected response {:?}", other),
    }
}

#[test]
fn respond_to_an_unsupported_content_type_is_an_internal_error() {
    let odd =
        Download { id: FIRST, filename: "a.txt".to_string(), content_type: "text/plain".to_string() };
    assert_eq!(odd.respond(vec![1]).err(), Some(DownloadErrorResponse::InternalError));
}

#[test]
fn record_download_counts_one_more() {
    let mut resource = Resource::new();
    assert!(add(&mut resource, FIRST, "a.mp4").is_ok());
    assert!(add(&mut resource, SECOND, "b.mp4").is_ok());
    resource.record_download(FIRST);
    assert_eq!(resource.get(FIRST).unwrap().download_cnt, 1);
    resource.record_download(FIRST);
    resource.record_download(FIRST);
    assert_eq!(resource.get(FIRST).unwrap().download_cnt, 3);
    assert_eq!(resource.get(SECOND).unwrap().download_cnt, 0);
    let file = resource.get(FIRST).unwrap();
    assert_eq!(file.name, "a.mp4");
    assert_eq!(file.content_type, "video/mp4");
    assert_eq!(file.size, 100);
    assert_eq!(file.created_at, STAMP);
    assert_in_step(&resource, &[(FIRST, "a.mp4"), (SECOND, "b.mp4")]);
}

#[test]
fn record_download_of_a_missing_file_does_nothing() {
    let mut resource = Resource::new();
    assert!(add(&mut resource, FIRST, "a.mp4").is_ok());
    resource.record_download(SECOND);
    assert_eq!(resource.len(), 1);
    assert!(resource.get(SECOND).is_none());
    assert_eq!(resource.get(FIRST).unwrap().download_cnt, 0);
    assert!(resource.remove(FIRST).is_ok());
    resource.record_download(FIRST);
    assert_eq!(resource.len(), 0);
}

#[test]
fn remove_takes_record_and_name_together() {
    let mut resource = Resource::new();
    assert!(add(&mut resource, FIRST, "a.mp4").is_ok());
    assert!(add(&mut resource, SECOND, "b.mp4").is_ok());
    assert_eq!(resource.remove(FIRST), Ok(()));
    assert!(resource.get(FIRST).is_none());
    assert_eq!(resource.check_upload(Some("a.mp4"), Some(MP4)), Ok(()));
    assert_in_step(&resource, &[(SECOND, "b.mp4")]);
}

#[test]
fn remove_twice_succeeds_once() {
    let mut resource = Resource::new();
    assert!(add(&mut resource, FIRST, "a.mp4").is_ok());
    assert_eq!(resource.remove(FIRST), Ok(()));
    assert_eq!(resource.remove(FIRST), Err(DeleteErrorResponse::NotFound));
    assert_eq!(resource.remove(FIRST), Err(DeleteErrorResponse::NotFound));
    assert_eq!(resource.len(), 0);
}

#[test]
fn remove_of_an_unknown_file_is_not_found() {
    let mut resource = Resource::new();
    assert_eq!(resource.remove(FIRST), Err(DeleteErrorResponse::NotFound));
    assert!(add(&mut resource, FIRST, "a.mp4").is_ok());
    assert_eq!(resource.remove(SECOND), Err(DeleteErrorResponse::NotFound));
    assert_in_step(&resource, &[(FIRST, "a.mp4")]);
}

#[test]
fn delete_reads_the_identifier_from_text() {
    let mut resource = Resource::new();
    assert!(add(&mut resource, FIRST, "a.mp4").is_ok());
    assert_eq!(resource.delete("not an identifier"), Err(DeleteErrorResponse::NotFound));
    assert_eq!(
        resource.delete("550e8400-e29b-41d4-a716-446655440000"),
        Err(DeleteErrorResponse::NotFound)
    );
    assert_eq!(resource.len(), 1);
    assert_eq!(resource.delete("a1a2a3a4-b1b2-c1c2-d1d2-d3d4d5d6d7d8"), Ok(FIRST));
    assert_eq!(
        resource.delete("a1a2a3a4-b1b2-c1c2-d1d2-d3d4d5d6d7d8"),
        Err(DeleteErrorResponse::NotFound)
    );
    assert_eq!(resource.len(), 0);
}

#[test]
fn name_is_free_again_after_a_removal() {
    let mut resource = Resource::new();
    assert!(add(&mut resource, FIRST, "a.mp4").is_ok());
    assert_eq!(add(&mut resource, SECOND, "a.mp4"), Err(UploadErrorResponse::FileExists));
    assert_eq!(resource.remove(FIRST), Ok(()));
    assert!(add(&mut resource, SECOND, "a.mp4").is_ok());
    assert_in_step(&resource, &[(SECOND, "a.mp4")]);
}

#[test]
fn maps_stay_in_step_over_a_sequence_of_operations() {
    let mut resource = Resource::new();
    let mut live: Vec<(u128, String)> = Vec::new();
    let mut seed: u64 = 12345;
    for _ in 0..400 {
        seed = seed.wrapping_mul(6364136223846793005).wrapping_add(1442695040888963407);
        let id = ((seed >> 33) % 12) as u128;
        let name = format!("file-{}.mp4", (seed >> 40) % 8);
        if (seed >> 20) % 3 == 0 {
            let removed = resource.remove(id);
            assert_eq!(removed.is_ok(), live.iter().any(|(other, _)| *other == id));
            live.retain(|(other, _)| *other != id);
        } else {
            let name_taken = live.iter().any(|(_, other)| *other == name);
            let id_taken = live.iter().any(|(other, _)| *other == id);
            let registered = add(&mut resource, id, &name);
            if name_taken {
                assert_eq!(registered, Err(UploadErrorResponse::FileExists));
            } else if id_taken {
                assert_eq!(registered, Err(UploadErrorResponse::InternalError));
            } else {
                assert!(registered.is_ok());
                live.push((id, name));
            }
        }
        let expected: Vec<(u128, &str)> =
            live.iter().map(|(id, name)| (*id, name.as_str())).collect();
        assert_in_step(&resource, &expected);
    }
}

#[test]
fn list_shows_every_file_once() {
    let mut resource = Resource::new();
    assert!(add(&mut resource, FIRST, "a.mp4").is_ok());
    assert!(resource
        .register(SECOND, "b.mpg".to_string(), MPEG.to_string(), 5, "later".to_string())
        .is_ok());
    let listing = sorted(resource.list());
    assert_eq!(listing.len(), 2);
    assert_eq!(listing[0].fileid, "550e8400-e29b-41d4-a716-446655440000");
    assert_eq!(listing[0].name, "b.mpg");
    assert_eq!(listing[0].size, 5);
    assert_eq!(listing[0].created_at, "later");
    assert_eq!(listing[1].fileid, "a1a2a3a4-b1b2-c1c2-d1d2-d3d4d5d6d7d8");
    assert_eq!(listing[1].name, "a.mp4");
    assert_eq!(listing[1].size, 100);
    assert_eq!(listing[1].created_at, STAMP);
}

#[test]
fn entry_shows_identifier_name_size_and_time() {
    let file = File {
        content_type: MP4.to_string(),
        name: "a.mp4".to_string(),
        size: 42,
        created_at: STAMP.to_string(),
        download_cnt: 9,
    };
    let entry = entry_of(FIRST, &file);
    assert_eq!(entry.fileid, "a1a2a3a4-b1b2-c1c2-d1d2-d3d4d5d6d7d8");
    assert_eq!(entry.name, "a.mp4");
    assert_eq!(entry.size, 42);
    assert_eq!(entry.created_at, STAMP);
}
