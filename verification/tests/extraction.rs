use mutual_downloader::{concat_mutuals, extract_mutuals, extract_user_info, find_all_entries,
    process_followers_text, Json};

fn obj(fields: Vec<(&str, Json)>) -> Json {
    Json::Obj(fields.into_iter().map(|(k, v)| (k.to_string(), v)).collect())
}

fn text(x: &str) -> Json {
    Json::Str(x.to_string())
}

fn legacy_block(screen_name: &str, url: &str, followed_by: Json, following: Json) -> Json {
    obj(vec![
        ("screen_name", text(screen_name)),
        ("profile_image_url_https", text(url)),
        ("followed_by", followed_by),
        ("following", following),
    ])
}

fn entry(entry_type: &str, legacy_value: Json) -> Json {
    obj(vec![
        ("entryId", text("user-1")),
        (
            "content",
            obj(vec![
                ("entryType", text(entry_type)),
                (
                    "itemContent",
                    obj(vec![(
                        "user_results",
                        obj(vec![("result", obj(vec![("legacy", legacy_value)]))]),
                    )]),
                ),
            ]),
        ),
    ])
}

fn doc_with_entries(entries: Vec<Json>) -> Json {
    let instruction = obj(vec![("entries", Json::Arr(entries))]);
    obj(vec![(
        "data",
        obj(vec![(
            "user",
            obj(vec![(
                "result",
                obj(vec![(
                    "timeline",
                    obj(vec![(
                        "timeline",
                        obj(vec![("instructions", Json::Arr(vec![instruction]))]),
                    )]),
                )]),
            )]),
        )]),
    )])
}

fn mutual_entry(screen_name: &str, url: &str) -> Json {
    entry(
        "TimelineTimelineItem",
        legacy_block(screen_name, url, Json::Bool(true), Json::Bool(true)),
    )
}

#[test]
fn one_mutual_extracted_end_to_end() {
    let doc = doc_with_entries(vec![mutual_entry(
        "alice",
        "https://img/host/alice_normal.png",
    )]);
    let users = extract_mutuals(&doc);
    assert_eq!(users.len(), 1);
    assert_eq!(users[0].username, "alice");
    assert_eq!(users[0].profile_image_url, "https://img/host/alice.png");
}

#[test]
fn non_following_yields_no_record() {
    let doc = doc_with_entries(vec![entry(
        "TimelineTimelineItem",
        legacy_block(
            "alice",
            "https://img/host/alice_normal.png",
            Json::Bool(true),
            Json::Bool(false),
        ),
    )]);
    assert_eq!(extract_mutuals(&doc).len(), 0);
}

#[test]
fn non_followed_by_yields_no_record() {
    let doc = doc_with_entries(vec![entry(
        "TimelineTimelineItem",
        legacy_block("alice", "https://a/b.png", Json::Bool(false), Json::Bool(true)),
    )]);
    assert_eq!(extract_mutuals(&doc).len(), 0);
}

#[test]
fn absent_or_non_boolean_flags_yield_no_record() {
    let absent = entry(
        "TimelineTimelineItem",
        obj(vec![
            ("screen_name", text("alice")),
            ("profile_image_url_https", text("https://a/b.png")),
        ]),
    );
    let non_boolean = entry(
        "TimelineTimelineItem",
        legacy_block("alice", "https://a/b.png", text("true"), Json::Bool(true)),
    );
    let doc = doc_with_entries(vec![absent, non_boolean]);
    assert_eq!(extract_mutuals(&doc).len(), 0);
}

#[test]
fn other_entry_types_discarded() {
    let doc = doc_with_entries(vec![
        entry(
            "TimelineTimelineCursor",
            legacy_block("bob", "https://a/b.png", Json::Bool(true), Json::Bool(true)),
        ),
        mutual_entry("alice", "https://a/alice.png"),
    ]);
    let users = extract_mutuals(&doc);
    assert_eq!(users.len(), 1);
    assert_eq!(users[0].username, "alice");
}

#[test]
fn non_object_legacy_skipped_silently() {
    let doc = doc_with_entries(vec![entry("TimelineTimelineItem", text("not an object"))]);
    assert_eq!(extract_mutuals(&doc).len(), 0);
}

#[test]
fn absent_fields_default_to_empty_strings() {
    let doc = doc_with_entries(vec![entry(
        "TimelineTimelineItem",
        obj(vec![
            ("followed_by", Json::Bool(true)),
            ("following", Json::Bool(true)),
        ]),
    )]);
    let users = extract_mutuals(&doc);
    assert_eq!(users.len(), 1);
    assert_eq!(users[0].username, "");
    assert_eq!(users[0].profile_image_url, "");
}

#[test]
fn missing_instructions_path_yields_empty_list() {
    let doc = obj(vec![("data", obj(vec![("user", Json::Null)]))]);
    assert_eq!(extract_mutuals(&doc).len(), 0);
    let non_array = obj(vec![(
        "data",
        obj(vec![(
            "user",
            obj(vec![(
                "result",
                obj(vec![(
                    "timeline",
                    obj(vec![(
                        "timeline",
                        obj(vec![("instructions", text("not an array"))]),
                    )]),
                )]),
            )]),
        )]),
    )]);
    assert_eq!(extract_mutuals(&non_array).len(), 0);
}

#[test]
fn every_array_field_is_an_entry_bucket() {
    let with_id = || obj(vec![("entryId", text("e-1"))]);
    let without_id = obj(vec![("cursor", text("top"))]);
    let instruction = obj(vec![
        ("type", text("TimelineAddEntries")),
        ("entries", Json::Arr(vec![with_id(), without_id, text("loose")])),
        ("moreEntries", Json::Arr(vec![with_id()])),
    ]);
    let instructions = vec![instruction, text("not an object")];
    let found = find_all_entries(&instructions);
    assert_eq!(found.len(), 2);
}

#[test]
fn extract_user_info_reads_one_entry() {
    let e = mutual_entry("carol", "https://img/c_normal.jpg");
    let user = extract_user_info(&e).expect("a mutual entry yields a record");
    assert_eq!(user.username, "carol");
    assert_eq!(user.profile_image_url, "https://img/c.jpg");
    let skipped = entry(
        "TimelineTimelineItem",
        legacy_block("carol", "https://img/c.jpg", Json::Bool(false), Json::Bool(false)),
    );
    assert!(extract_user_info(&skipped).is_none());
}

#[test]
fn parsed_text_yields_same_records() {
    let text = r#"{
        "data": { "user": { "result": { "timeline": { "timeline": { "instructions": [
            { "entries": [
                { "entryId": "user-1",
                  "content": { "entryType": "TimelineTimelineItem",
                    "itemContent": { "user_results": { "result": { "legacy": {
                        "screen_name": "alice",
                        "profile_image_url_https": "https://img/host/alice_normal.png",
                        "followed_by": true,
                        "following": true
                    } } } } } },
                { "entryId": "user-2",
                  "content": { "entryType": "TimelineTimelineItem",
                    "itemContent": { "user_results": { "result": { "legacy": {
                        "screen_name": "bob",
                        "profile_image_url_https": "https://img/host/bob.png",
                        "followed_by": true,
                        "following": false
                    } } } } } }
            ] }
        ] } } } } }
    }"#;
    let users = process_followers_text(text).expect("valid JSON parses");
    assert_eq!(users.len(), 1);
    assert_eq!(users[0].username, "alice");
    assert_eq!(users[0].profile_image_url, "https://img/host/alice.png");
}

#[test]
fn invalid_json_is_a_parse_error() {
    assert!(process_followers_text("not json at all {").is_err());
    assert!(process_followers_text("").is_err());
}

#[test]
fn extraction_order_is_stable_across_runs() {
    let doc = doc_with_entries(vec![
        mutual_entry("alice", "https://a/alice.png"),
        mutual_entry("bob", "https://a/bob.png"),
        mutual_entry("carol", "https://a/carol.png"),
    ]);
    let first = extract_mutuals(&doc);
    let second = extract_mutuals(&doc);
    let first_names: Vec<&str> = first.iter().map(|u| u.username.as_str()).collect();
    let second_names: Vec<&str> = second.iter().map(|u| u.username.as_str()).collect();
    assert_eq!(first_names, vec!["alice", "bob", "carol"]);
    assert_eq!(first_names, second_names);
}

#[test]
fn concatenation_keeps_file_order() {
    let doc_a = doc_with_entries(vec![
        mutual_entry("alice", "https://a/alice.png"),
        mutual_entry("bob", "https://a/bob.png"),
    ]);
    let doc_b = doc_with_entries(vec![mutual_entry("carol", "https://a/carol.png")]);
    let lists = vec![extract_mutuals(&doc_a), extract_mutuals(&doc_b)];
    let merged = concat_mutuals(&lists);
    assert_eq!(merged.len(), lists[0].len() + lists[1].len());
    let names: Vec<&str> = merged.iter().map(|u| u.username.as_str()).collect();
    assert_eq!(names, vec!["alice", "bob", "carol"]);
}

#[test]
fn no_deduplication_across_files() {
    let doc_a = doc_with_entries(vec![mutual_entry("alice", "https://a/alice.png")]);
    let doc_b = doc_with_entries(vec![mutual_entry("alice", "https://a/alice.png")]);
    let lists = vec![extract_mutuals(&doc_a), extract_mutuals(&doc_b)];
    let merged = concat_mutuals(&lists);
    assert_eq!(merged.len(), 2);
    assert_eq!(merged[0].username, "alice");
    assert_eq!(merged[1].username, "alice");
}

#[test]
fn lookup_takes_first_matching_key() {
    let j = obj(vec![("k", text("first")), ("k", text("second"))]);
    match j.get("k") {
        Some(Json::Str(v)) => assert_eq!(v, "first"),
        _ => panic!("the key is present"),
    }
}
