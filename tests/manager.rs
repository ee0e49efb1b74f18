use prd_manager::analytics::{top_counts, Analytics};
use prd_manager::ranking::top_positions;
use prd_manager::export::record_to_json;
use prd_manager::record::decimal_text;
use prd_manager::{PRDManager, PRDStatus, Priority, PRD};

fn count_of(counts: &[(String, usize)], key: &str) -> usize {
    counts.iter().find(|e| e.0 == key).map(|e| e.1).unwrap_or(0)
}

fn mean(sum: u128, n: usize) -> f64 {
    if n == 0 {
        0.0
    } else {
        sum as f64 / n as f64
    }
}

fn set_completion(m: &mut PRDManager, id: &str, p: u8) -> bool {
    match m.get_prd_mut(id) {
        Some(r) => {
            r.set_completion_percentage(p);
            true
        }
        None => false,
    }
}

fn set_priority(m: &mut PRDManager, id: &str, p: Priority) -> bool {
    match m.get_prd_mut(id) {
        Some(r) => {
            r.set_priority(p);
            true
        }
        None => false,
    }
}

fn add_tag(m: &mut PRDManager, id: &str, t: String) -> bool {
    match m.get_prd_mut(id) {
        Some(r) => {
            r.add_tag(t);
            true
        }
        None => false,
    }
}

fn s(x: &str) -> String {
    x.to_string()
}

#[test]
fn create_then_get_returns_fresh_records() {
    let mut m = PRDManager::new();
    let a = m.create_prd(s("A"), s("first"), s("ann"));
    let b = m.create_prd(s("B"), s("second"), s("bob"));
    let c = m.create_prd(s("C"), s("third"), s("cat"));
    assert_ne!(a, b);
    assert_ne!(b, c);
    assert_ne!(a, c);
    for (id, title, desc, author) in [(&a, "A", "first", "ann"), (&b, "B", "second", "bob"), (&c, "C", "third", "cat")] {
        let p = m.get_prd(id).expect("created record is found");
        assert_eq!(&p.id, id);
        assert_eq!(p.title, title);
        assert_eq!(p.description, desc);
        assert_eq!(p.author, author);
        assert_eq!(p.status, PRDStatus::Draft);
        assert_eq!(p.priority, Priority::Medium);
        assert_eq!(p.completion_percentage, 0);
        assert!(p.tags.is_empty());
        assert_eq!(p.created_at, p.updated_at);
    }
    let all: Vec<&str> = m.get_all_prds().iter().map(|p| p.title.as_str()).collect();
    assert_eq!(all, vec!["A", "B", "C"]);
}

#[test]
fn identifiers_have_uuid_form() {
    let mut m = PRDManager::new();
    let id = m.create_prd(s("T"), s("D"), s("A"));
    assert!(id.starts_with("PRD-"));
    let rest = &id[4..];
    assert_eq!(rest.len(), 36);
    assert!(uuid::Uuid::parse_str(rest).is_ok());
}

#[test]
fn lookup_of_unknown_or_malformed_identifier_fails() {
    let mut m = PRDManager::new();
    let id = m.create_prd(s("T"), s("D"), s("A"));
    assert!(m.get_prd("").is_none());
    assert!(m.get_prd("PRD").is_none());
    assert!(m.get_prd("PRD-not-a-uuid").is_none());
    assert!(m.get_prd("PRD-00000000-0000-0000-0000-000000000000").is_none());
    assert!(m.get_prd(&id.to_uppercase()).is_none());
    assert!(m.get_prd(&id).is_some());
}

#[test]
fn completion_is_clamped() {
    let mut p = PRD::new(s("T"), s("D"), s("A"));
    p.set_completion_percentage(150);
    assert_eq!(p.completion_percentage, 100);
    p.set_completion_percentage(37);
    assert_eq!(p.completion_percentage, 37);
    p.set_completion_percentage(100);
    assert_eq!(p.completion_percentage, 100);
    assert!(p.updated_at >= p.created_at);
}

#[test]
fn completion_is_clamped_through_manager() {
    let mut m = PRDManager::new();
    let id = m.create_prd(s("T"), s("D"), s("A"));
    assert!(set_completion(&mut m, &id, 150));
    assert_eq!(m.get_prd(&id).unwrap().completion_percentage, 100);
    assert!(set_completion(&mut m, &id, 37));
    assert_eq!(m.get_prd(&id).unwrap().completion_percentage, 37);
    assert!(!set_completion(&mut m, "PRD-missing", 5));
}

#[test]
fn adding_a_tag_twice_keeps_one() {
    let mut p = PRD::new(s("T"), s("D"), s("A"));
    p.add_tag(s("Security"));
    p.add_tag(s("Security"));
    assert_eq!(p.tags, vec![s("security")]);
}

#[test]
fn tags_are_trimmed_lowercased_and_never_empty() {
    let mut p = PRD::new(s("T"), s("D"), s("A"));
    p.add_tag(s("  UI  "));
    p.add_tag(s("   "));
    p.add_tag(s(""));
    p.add_tag(s("ui"));
    p.add_tag(s("Theme"));
    assert_eq!(p.tags, vec![s("ui"), s("theme")]);
}

#[test]
fn update_status_of_unknown_id_changes_nothing() {
    let mut m = PRDManager::new();
    let a = m.create_prd(s("A"), s("x"), s("ann"));
    let b = m.create_prd(s("B"), s("y"), s("bob"));
    let before: Vec<String> = m.get_all_prds().iter().map(|p| p.id.clone()).collect();
    assert!(!m.update_prd_status("PRD-unknown", PRDStatus::Approved));
    let after: Vec<String> = m.get_all_prds().iter().map(|p| p.id.clone()).collect();
    assert_eq!(before, after);
    assert_eq!(m.get_prd(&a).unwrap().status, PRDStatus::Draft);
    assert_eq!(m.get_prd(&b).unwrap().status, PRDStatus::Draft);
    assert_eq!(m.get_all_prds()[1].id, b);
}

#[test]
fn update_status_of_known_id() {
    let mut m = PRDManager::new();
    let a = m.create_prd(s("A"), s("x"), s("ann"));
    assert!(m.update_prd_status(&a, PRDStatus::Testing));
    let p = m.get_prd(&a).unwrap();
    assert_eq!(p.status, PRDStatus::Testing);
    assert!(p.updated_at >= p.created_at);
    assert_eq!(count_of(&m.get_analytics().status_counts, "Testing"), 1);
}

#[test]
fn analytics_report_count_and_mean() {
    let mut m = PRDManager::new();
    let percentages = [10u8, 20, 45];
    for (i, p) in percentages.iter().enumerate() {
        let id = m.create_prd(format!("T{}", i), s("D"), s("ann"));
        set_completion(&mut m, &id, *p);
    }
    let a = m.get_analytics();
    assert_eq!(a.total_prds, 3);
    assert_eq!(a.completion_sum, 75);
    assert!((mean(a.completion_sum, a.total_prds) - 25.0).abs() < 1e-9);
    assert_eq!(count_of(&a.status_counts, "Draft"), 3);
    assert_eq!(count_of(&a.priority_counts, "Medium"), 3);
    assert_eq!(count_of(&a.top_authors, "ann"), 3);
}

#[test]
fn analytics_of_nothing() {
    let mut m = PRDManager::new();
    let a = m.get_analytics();
    assert_eq!(a.total_prds, 0);
    assert_eq!(mean(a.completion_sum, a.total_prds), 0.0);
    assert!(a.status_counts.is_empty());
    assert!(a.tag_frequency.is_empty());
    let fresh = Analytics::new();
    assert_eq!(fresh.total_prds, 0);
}

#[test]
fn analytics_of_sample_data() {
    let mut m = PRDManager::new();
    m.load_sample_data();
    let a = m.get_analytics();
    assert_eq!(a.total_prds, 8);
    assert_eq!(a.completion_sum, 255);
    assert_eq!(count_of(&a.status_counts, "Draft"), 3);
    assert_eq!(count_of(&a.status_counts, "In Review"), 1);
    assert_eq!(count_of(&a.status_counts, "In Development"), 1);
    assert_eq!(count_of(&a.priority_counts, "Medium"), 6);
    assert_eq!(count_of(&a.priority_counts, "High"), 1);
    assert_eq!(count_of(&a.priority_counts, "Critical"), 1);
    assert_eq!(count_of(&a.tag_frequency, "security"), 2);
    assert_eq!(count_of(&a.tag_frequency, "ui"), 1);
    assert_eq!(count_of(&a.top_authors, "Dev Team"), 1);
    assert_eq!(a.tag_frequency.len(), 15);
}

#[test]
fn completion_stats_of_empty_manager() {
    let m = PRDManager::new();
    assert_eq!(m.get_completion_stats(), (0, 0, 0));
}

#[test]
fn completion_stats_of_four_records() {
    let mut m = PRDManager::new();
    for p in [0u8, 65, 90, 100] {
        let id = m.create_prd(s("T"), s("D"), s("A"));
        set_completion(&mut m, &id, p);
    }
    let (lo, hi, sum) = m.get_completion_stats();
    assert_eq!((lo, hi), (0, 100));
    assert_eq!(mean(sum, m.get_all_prds().len()), 63.75);
}

#[test]
fn completion_stats_of_sample_data() {
    let mut m = PRDManager::new();
    m.load_sample_data();
    let (lo, hi, sum) = m.get_completion_stats();
    assert_eq!((lo, hi, sum), (0, 100, 255));
    assert_eq!(mean(sum, 8), 31.875);
}

#[test]
fn search_finds_authentication_record() {
    let mut m = PRDManager::new();
    m.load_sample_data();
    let found = m.search_prds("authentication");
    assert_eq!(found.len(), 1);
    assert_eq!(found[0].title, "User Authentication System");
    assert!(found[0].tags.contains(&s("authentication")));
}

#[test]
fn search_ignores_case_and_looks_at_tags() {
    let mut m = PRDManager::new();
    m.load_sample_data();
    let titles: Vec<&str> = m.search_prds("SECURITY").iter().map(|p| p.title.as_str()).collect();
    assert_eq!(titles, vec!["User Authentication System", "API Rate Limiting"]);
    let secure: Vec<&str> = m.search_prds("SECURE").iter().map(|p| p.title.as_str()).collect();
    assert_eq!(secure, vec!["User Authentication System", "Payment Gateway Integration"]);
    assert!(m.search_prds("no such words here").is_empty());
    let lowered: Vec<&str> = m.search_lowered("i18n").iter().map(|p| p.title.as_str()).collect();
    assert_eq!(lowered, vec!["Multi-language Support"]);
}

#[test]
fn filter_by_status_keeps_order() {
    let mut m = PRDManager::new();
    m.load_sample_data();
    let drafts: Vec<&str> = m.get_prds_by_status(PRDStatus::Draft).iter().map(|p| p.title.as_str()).collect();
    assert_eq!(drafts, vec!["User Authentication System", "Performance Optimization", "Multi-language Support"]);
    for p in m.get_prds_by_status(PRDStatus::Draft) {
        assert_eq!(p.status, PRDStatus::Draft);
    }
    assert!(m.get_prds_by_status(PRDStatus::Archived).is_empty());
}

#[test]
fn filter_by_priority_keeps_order() {
    let mut m = PRDManager::new();
    m.load_sample_data();
    let critical: Vec<&str> = m.get_prds_by_priority(Priority::Critical).iter().map(|p| p.title.as_str()).collect();
    assert_eq!(critical, vec!["API Rate Limiting"]);
    assert_eq!(m.get_prds_by_priority(Priority::Medium).len(), 6);
    assert!(m.get_prds_by_priority(Priority::Low).is_empty());
}

#[test]
fn sample_data_statuses_and_priorities() {
    let mut m = PRDManager::new();
    m.load_sample_data();
    let all = m.get_all_prds();
    assert_eq!(all.len(), 8);
    assert_eq!(all[2].status, PRDStatus::Approved);
    assert_eq!(all[2].priority, Priority::High);
    assert_eq!(all[3].completion_percentage, 65);
    assert_eq!(all[5].status, PRDStatus::Implemented);
    assert_eq!(all[0].tags, vec![s("security"), s("authentication")]);
}

#[test]
fn export_round_trip() {
    let mut m = PRDManager::new();
    m.load_sample_data();
    let id = m.create_prd(s("Quote \"this\""), s("line\nbreak"), s("Zoë"));
    add_tag(&mut m, &id, s("Edge"));
    let text = m.export_to_json().expect("export succeeds");
    let v: serde_json::Value = serde_json::from_str(&text).expect("valid JSON");
    let arr = v.as_array().expect("an array");
    let all = m.get_all_prds();
    assert_eq!(arr.len(), all.len());
    for (o, p) in arr.iter().zip(all.iter()) {
        assert_eq!(o["id"], p.id.as_str());
        assert_eq!(o["title"], p.title.as_str());
        assert_eq!(o["description"], p.description.as_str());
        assert_eq!(o["author"], p.author.as_str());
        assert_eq!(o["status"], p.status.label().as_str());
        assert_eq!(o["priority"], p.priority.label().as_str());
        assert_eq!(o["completion_percentage"], p.completion_percentage as u64);
        let tags: Vec<&str> = o["tags"].as_array().unwrap().iter().map(|t| t.as_str().unwrap()).collect();
        let expected: Vec<&str> = p.tags.iter().map(|t| t.as_str()).collect();
        assert_eq!(tags, expected);
        let created = chrono::DateTime::parse_from_rfc3339(o["created_at"].as_str().unwrap()).unwrap();
        assert_eq!(created.timestamp_micros(), p.created_at);
        let updated = chrono::DateTime::parse_from_rfc3339(o["updated_at"].as_str().unwrap()).unwrap();
        assert_eq!(updated.timestamp_micros(), p.updated_at);
    }
    assert_eq!(arr[1]["status"], "in_review");
    assert_eq!(arr[3]["status"], "in_development");
    assert_eq!(arr[3]["priority"], "critical");
    assert_eq!(arr[8]["title"], "Quote \"this\"");
}

#[test]
fn export_of_nothing_is_empty_array() {
    let m = PRDManager::new();
    assert_eq!(m.export_to_json().unwrap(), "[]");
}

#[test]
fn record_json_has_labels() {
    let mut p = PRD::new(s("T"), s("D"), s("A"));
    p.update_status(PRDStatus::InReview);
    p.set_priority(Priority::High);
    p.set_completion_percentage(7);
    let v: serde_json::Value = serde_json::from_str(&record_to_json(&p).unwrap()).unwrap();
    assert_eq!(v["status"], "in_review");
    assert_eq!(v["priority"], "high");
    assert_eq!(v["completion_percentage"], 7);
    assert_eq!(v["tags"], serde_json::Value::Array(vec![]));
}

#[test]
fn labels_match_table() {
    let statuses = [
        (PRDStatus::Draft, "draft", "Draft"),
        (PRDStatus::InReview, "in_review", "In Review"),
        (PRDStatus::Approved, "approved", "Approved"),
        (PRDStatus::InDevelopment, "in_development", "In Development"),
        (PRDStatus::Testing, "testing", "Testing"),
        (PRDStatus::Implemented, "implemented", "Implemented"),
        (PRDStatus::Archived, "archived", "Archived"),
    ];
    for (st, label, name) in statuses {
        assert_eq!(st.label(), label);
        assert_eq!(st.display_name(), name);
    }
    let priorities = [
        (Priority::Low, "low", "Low"),
        (Priority::Medium, "medium", "Medium"),
        (Priority::High, "high", "High"),
        (Priority::Critical, "critical", "Critical"),
    ];
    for (pr, label, name) in priorities {
        assert_eq!(pr.label(), label);
        assert_eq!(pr.display_name(), name);
    }
}

#[test]
fn summary_line_format() {
    let mut m = PRDManager::new();
    let id = m.create_prd(s("Dark Mode"), s("D"), s("A"));
    m.update_prd_status(&id, PRDStatus::InReview);
    set_completion(&mut m, &id, 42);
    let line = m.get_prd(&id).unwrap().summary();
    assert_eq!(line, format!("PRD{{ID='{}', Title='Dark Mode', Status=In Review, Completion=42%}}", id));
}

#[test]
fn decimal_text_of_bytes() {
    assert_eq!(decimal_text(0), "0");
    assert_eq!(decimal_text(7), "7");
    assert_eq!(decimal_text(10), "10");
    assert_eq!(decimal_text(65), "65");
    assert_eq!(decimal_text(100), "100");
    assert_eq!(decimal_text(255), "255");
}

#[test]
fn priority_and_tag_updates_by_identifier() {
    let mut m = PRDManager::new();
    let id = m.create_prd(s("T"), s("D"), s("A"));
    assert!(set_priority(&mut m, &id, Priority::Critical));
    assert!(add_tag(&mut m, &id, s(" Backend ")));
    assert!(add_tag(&mut m, &id, s("BACKEND")));
    let p = m.get_prd(&id).unwrap();
    assert_eq!(p.priority, Priority::Critical);
    assert_eq!(p.tags, vec![s("backend")]);
    assert!(!set_priority(&mut m, "nope", Priority::Low));
    assert!(!add_tag(&mut m, "nope", s("x")));
}

#[test]
fn default_manager_is_empty() {
    let m = PRDManager::default();
    assert!(m.get_all_prds().is_empty());
}

#[test]
fn mutable_handle_changes_the_record_in_place() {
    let mut m = PRDManager::new();
    let id = m.create_prd(s("T"), s("D"), s("A"));
    if let Some(p) = m.get_prd_mut(&id) {
        p.set_completion_percentage(65);
        p.set_priority(Priority::Critical);
        p.add_tag(s("Api"));
    }
    let p = m.get_prd(&id).unwrap();
    assert_eq!(p.completion_percentage, 65);
    assert_eq!(p.priority, Priority::Critical);
    assert_eq!(p.tags, vec![s("api")]);
    assert!(m.get_prd_mut("PRD-none").is_none());
}

#[test]
fn top_positions_orders_by_key_then_position() {
    assert_eq!(top_positions(&[3, 9, 3, 7, 9], 3), vec![1, 4, 3]);
    assert_eq!(top_positions(&[3, 9, 3, 7, 9], 10), vec![1, 4, 3, 0, 2]);
    assert_eq!(top_positions(&[], 5), Vec::<usize>::new());
    assert_eq!(top_positions(&[1, 2], 0), Vec::<usize>::new());
    assert_eq!(top_positions(&[-5, i128::MAX, i128::MIN], 2), vec![1, 0]);
}

#[test]
fn top_counts_of_sample_tags() {
    let mut m = PRDManager::new();
    m.load_sample_data();
    let a = m.get_analytics();
    let top = top_counts(&a.tag_frequency, 2);
    assert_eq!(top.len(), 2);
    assert_eq!(a.tag_frequency[top[0]], (s("security"), 2));
    assert_eq!(a.tag_frequency[top[1]], (s("authentication"), 1));
}

#[test]
fn recent_prds_latest_first() {
    let mut m = PRDManager::new();
    let a = m.create_prd(s("A"), s("x"), s("ann"));
    let _b = m.create_prd(s("B"), s("y"), s("bob"));
    let _c = m.create_prd(s("C"), s("z"), s("cat"));
    m.update_prd_status(&a, PRDStatus::Approved);
    let recent = m.recent_prds(2);
    assert_eq!(recent.len(), 2);
    assert_eq!(recent[0].title, "A");
    assert!(recent[0].updated_at >= recent[1].updated_at);
    assert_eq!(m.recent_prds(10).len(), 3);
}

#[test]
fn sample_data_full_table() {
    let mut m = PRDManager::new();
    m.load_sample_data();
    let all = m.get_all_prds();
    let titles: Vec<&str> = all.iter().map(|p| p.title.as_str()).collect();
    assert_eq!(
        titles,
        vec![
            "User Authentication System",
            "Dark Mode Theme",
            "Payment Gateway Integration",
            "API Rate Limiting",
            "Mobile App Redesign",
            "Real-time Notifications",
            "Performance Optimization",
            "Multi-language Support",
        ]
    );
    let statuses: Vec<PRDStatus> = all.iter().map(|p| p.status).collect();
    assert_eq!(
        statuses,
        vec![
            PRDStatus::Draft,
            PRDStatus::InReview,
            PRDStatus::Approved,
            PRDStatus::InDevelopment,
            PRDStatus::Testing,
            PRDStatus::Implemented,
            PRDStatus::Draft,
            PRDStatus::Draft,
        ]
    );
    let priorities: Vec<Priority> = all.iter().map(|p| p.priority).collect();
    assert_eq!(
        priorities,
        vec![
            Priority::Medium,
            Priority::Medium,
            Priority::High,
            Priority::Critical,
            Priority::Medium,
            Priority::Medium,
            Priority::Medium,
            Priority::Medium,
        ]
    );
    let completions: Vec<u8> = all.iter().map(|p| p.completion_percentage).collect();
    assert_eq!(completions, vec![0, 0, 0, 65, 90, 100, 0, 0]);
    assert_eq!(all[3].tags, vec![s("api"), s("security")]);
    let high: Vec<&str> = m.get_prds_by_priority(Priority::High).iter().map(|p| p.title.as_str()).collect();
    assert_eq!(high, vec!["Payment Gateway Integration"]);
}

#[test]
fn unknown_identifiers_after_one_creation() {
    let mut m = PRDManager::new();
    let a = m.create_prd(s("A"), s("x"), s("u"));
    assert_eq!(a.len(), 40);
    assert!(m.get_prd("PRD-00000000-0000-0000-0000-000000000000").is_none());
    assert!(m.get_prd("").is_none());
    assert!(!m.update_prd_status("PRD-unknown", PRDStatus::Approved));
    assert_eq!(m.get_all_prds().len(), 1);
    assert_eq!(m.get_all_prds()[0].id, a);
    assert_eq!(m.get_prd(&a).unwrap().status, PRDStatus::Draft);
}

#[test]
fn clock_taking_forms_stamp_the_given_time() {
    let mut p = PRD::with_key_at(7, s("T"), s("D"), s("A"), 1_000_000);
    assert_eq!(p.created_at, 1_000_000);
    assert_eq!(p.updated_at, 1_000_000);
    assert_eq!(p.id, "PRD-00000000-0000-0000-0000-000000000007");
    p.update_status_at(PRDStatus::Testing, 2_000_000);
    assert_eq!((p.status, p.updated_at), (PRDStatus::Testing, 2_000_000));
    p.set_priority_at(Priority::Low, 3_000_000);
    assert_eq!((p.priority, p.updated_at), (Priority::Low, 3_000_000));
    p.set_completion_percentage_at(120, 4_000_000);
    assert_eq!((p.completion_percentage, p.updated_at), (100, 4_000_000));
    p.add_tag_at(s(" X "), 5_000_000);
    assert_eq!((p.tags.clone(), p.updated_at), (vec![s("x")], 5_000_000));
    p.add_tag_at(s("x"), 6_000_000);
    assert_eq!(p.updated_at, 5_000_000);
    p.touch_at(500_000);
    assert_eq!(p.updated_at, 1_000_000);
    let a = Analytics::new_at(42);
    assert_eq!(a.last_updated, 42);
    let b = Analytics::from_records_at(&[p.clone()], 43);
    assert_eq!((b.total_prds, b.last_updated, b.completion_sum), (1, 43, 100));
}

#[test]
fn status_update_at_given_time() {
    let mut m = PRDManager::new();
    let id = m.create_prd(s("A"), s("x"), s("u"));
    let created = m.get_prd(&id).unwrap().created_at;
    let later = created + 10;
    assert!(m.update_prd_status_at(&id, PRDStatus::Archived, later));
    assert_eq!(m.get_prd(&id).unwrap().updated_at, later);
    assert!(!m.update_prd_status_at("PRD-x", PRDStatus::Draft, later));
}

#[test]
fn search_matches_tags_ignoring_case() {
    let mut m = PRDManager::new();
    let id = m.create_prd(s("Plain"), s("nothing"), s("u"));
    m.get_prd_mut(&id).unwrap().tags.push(s("Backend"));
    let found = m.search_prds("backend");
    assert_eq!(found.len(), 1);
}

#[test]
fn record_json_pretty_layout() {
    let mut p = PRD::with_key_at(1, s("T \"q\""), s("D"), s("A"), 1_000_000);
    let bare = record_to_json(&p).unwrap();
    assert_eq!(
        bare,
        "{\n    \"id\": \"PRD-00000000-0000-0000-0000-000000000001\",\n    \"title\": \"T \\\"q\\\"\",\n    \"description\": \"D\",\n    \"author\": \"A\",\n    \"status\": \"draft\",\n    \"priority\": \"medium\",\n    \"created_at\": \"1970-01-01T00:00:01Z\",\n    \"updated_at\": \"1970-01-01T00:00:01Z\",\n    \"completion_percentage\": 0,\n    \"tags\": []\n  }"
    );
    p.add_tag_at(s("a"), 1_500_000);
    p.add_tag_at(s("b"), 2_000_000);
    let tagged = record_to_json(&p).unwrap();
    assert!(tagged.contains("\"updated_at\": \"1970-01-01T00:00:02Z\""));
    assert!(tagged.ends_with("\"tags\": [\n      \"a\",\n      \"b\"\n    ]\n  }"));
    let v: serde_json::Value = serde_json::from_str(&tagged).unwrap();
    assert_eq!(serde_json::to_string_pretty(&v["tags"]).unwrap(), "[\n  \"a\",\n  \"b\"\n]");
}

#[test]
fn export_escapes_like_serde_json() {
    let p = PRD::with_key_at(2, s("a\u{1}\tb\\\"\u{1f}é"), s("x"), s("y"), 0);
    let text = record_to_json(&p).unwrap();
    assert!(text.contains("\"title\": \"a\\u0001\\tb\\\\\\\"\\u001fé\""));
    assert!(text.contains(&serde_json::to_string(&p.title).unwrap()));
}

#[test]
fn tags_trim_unicode_white_space() {
    let mut p = PRD::new(s("T"), s("D"), s("A"));
    p.add_tag(s("\u{3000}\u{a0} Mixed Case\u{2009}\n"));
    p.add_tag(s("\u{2028}"));
    assert_eq!(p.tags, vec![s("mixed case")]);
}
