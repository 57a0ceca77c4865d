use valdisere_presentation::category::{Phase, Position};
use valdisere_presentation::patients::{
    patient_records, summarize_patients, PatientData, PhaseData, Vitals,
};
use valdisere_presentation::records::BpRecord;
use valdisere_presentation::routes::{
    get_next_route, get_prev_route, key_action, normalize_path, slide_index, slide_path,
    NavAction, SLIDE_COUNT,
};
use valdisere_presentation::stats::BpStats;

const ORDER: [&str; 9] = [
    "/",
    "/motivation",
    "/background",
    "/rationale",
    "/methods",
    "/results",
    "/discussion",
    "/future",
    "/video",
];

fn reference_normalize(path: &str) -> String {
    let path = path.trim();
    if path == "/" {
        return "/".to_string();
    }
    let path = if path.ends_with('/') { &path[..path.len() - 1] } else { path };
    if !path.starts_with('/') {
        format!("/{}", path)
    } else {
        path.to_string()
    }
}

fn vitals(sys: i32, hr: Option<i32>) -> Option<Vitals> {
    Some(Vitals { sys, dia: 80, hr })
}

#[test]
fn slide_paths_in_order() {
    assert_eq!(SLIDE_COUNT, 9);
    for i in 0..SLIDE_COUNT {
        assert_eq!(slide_path(i), ORDER[i]);
        assert_eq!(slide_index(&ORDER[i].chars().collect()), Some(i));
    }
    assert_eq!(slide_index(&"/nowhere".chars().collect()), None);
    assert_eq!(slide_index(&"".chars().collect()), None);
}

#[test]
fn normalize_path_examples() {
    assert_eq!(normalize_path("/"), "/");
    assert_eq!(normalize_path(""), "/");
    assert_eq!(normalize_path("  "), "/");
    assert_eq!(normalize_path("/results"), "/results");
    assert_eq!(normalize_path("/results/"), "/results");
    assert_eq!(normalize_path("results"), "/results");
    assert_eq!(normalize_path(" results/ "), "/results");
    assert_eq!(normalize_path("//"), "/");
    assert_eq!(normalize_path("/a//"), "/a/");
    assert_eq!(normalize_path("é/ü/"), "/é/ü");
}

#[test]
fn normalize_path_agrees_with_string_operations() {
    let samples = [
        "", "/", "//", "///", " / ", "a", "a/", "/a", "/a/", " /a/b/ ", "\t/video\n", "x y", "/ /",
        "/é/", "\u{3000}/future/\u{a0}",
    ];
    for s in samples {
        assert_eq!(normalize_path(s), reference_normalize(s), "{:?}", s);
    }
}

#[test]
fn next_route_walks_the_order() {
    for i in 0..8 {
        assert_eq!(get_next_route(ORDER[i]), Some(ORDER[i + 1]));
    }
    assert_eq!(get_next_route("/video"), None);
    assert_eq!(get_next_route("/nowhere"), None);
    assert_eq!(get_next_route("/results/"), Some("/discussion"));
    assert_eq!(get_next_route(" methods "), Some("/results"));
    assert_eq!(get_next_route(""), Some("/motivation"));
    assert_eq!(get_next_route("/Results"), None);
}

#[test]
fn prev_route_walks_the_order_back() {
    for i in 1..9 {
        assert_eq!(get_prev_route(ORDER[i]), Some(ORDER[i - 1]));
    }
    assert_eq!(get_prev_route("/"), None);
    assert_eq!(get_prev_route("/nowhere"), None);
    assert_eq!(get_prev_route("video/"), Some("/future"));
    assert_eq!(get_prev_route("/motivation"), Some("/"));
}

#[test]
fn keys_move_between_slides() {
    assert_eq!(key_action("ArrowRight", false, false, false, false), NavAction::Next);
    assert_eq!(key_action(" ", false, false, false, false), NavAction::Next);
    assert_eq!(key_action("ArrowLeft", false, false, false, false), NavAction::Previous);
    assert_eq!(key_action("ArrowUp", false, false, false, false), NavAction::Stay);
    assert_eq!(key_action("", false, false, false, false), NavAction::Stay);
    assert_eq!(key_action("arrowright", false, false, false, false), NavAction::Stay);
}

#[test]
fn keys_with_modifiers_do_nothing() {
    assert_eq!(key_action("ArrowRight", true, false, false, false), NavAction::Stay);
    assert_eq!(key_action("ArrowRight", false, true, false, false), NavAction::Stay);
    assert_eq!(key_action("ArrowLeft", false, false, true, false), NavAction::Stay);
    assert_eq!(key_action(" ", false, false, false, true), NavAction::Stay);
}

#[test]
fn patient_readings_become_records_in_order() {
    let p = PatientData {
        mrn: "m1".to_string(),
        pre: PhaseData { lying: vitals(130, Some(70)), sitting: None, standing: vitals(100, None) },
        post: PhaseData { lying: None, sitting: vitals(120, Some(66)), standing: None },
    };
    assert_eq!(
        patient_records(&vec![p]),
        vec![
            BpRecord { sys: Some(130), hr: Some(70), pos: Position::Lying, phase: Phase::Pre },
            BpRecord { sys: Some(100), hr: None, pos: Position::Standing, phase: Phase::Pre },
            BpRecord { sys: Some(120), hr: Some(66), pos: Position::Sitting, phase: Phase::Post },
        ]
    );
    assert_eq!(patient_records(&Vec::new()), vec![]);
}

#[test]
fn patients_are_summarized_cell_by_cell() {
    let a = PatientData {
        mrn: "a".to_string(),
        pre: PhaseData {
            lying: vitals(130, Some(70)),
            sitting: vitals(120, None),
            standing: vitals(100, Some(90)),
        },
        post: PhaseData { lying: vitals(128, Some(68)), sitting: None, standing: vitals(121, None) },
    };
    let b = PatientData {
        mrn: "b".to_string(),
        pre: PhaseData { lying: vitals(141, Some(80)), sitting: None, standing: vitals(111, None) },
        post: PhaseData { lying: None, sitting: None, standing: vitals(124, Some(77)) },
    };
    let res = summarize_patients(&vec![a, b]);
    assert_eq!(
        res.cell(Position::Lying, Phase::Pre),
        BpStats { sys_sum: 271, sys_count: 2, hr_sum: 150, hr_count: 2 }
    );
    assert_eq!(res.sys_averages(Phase::Pre), [135, 120, 105]);
    assert_eq!(res.hr_averages(Phase::Pre), [75, 0, 90]);
    assert_eq!(res.sys_averages(Phase::Post), [128, 0, 122]);
    assert_eq!(res.hr_averages(Phase::Post), [68, 0, 77]);
    assert_eq!(res.systolic_drop(Phase::Pre), 30);
    assert_eq!(res.systolic_drop(Phase::Post), 6);
}

#[test]
fn no_patients_give_six_empty_cells() {
    let res = summarize_patients(&Vec::new());
    assert_eq!(res.sys_averages(Phase::Pre), [0, 0, 0]);
    assert_eq!(res.hr_averages(Phase::Post), [0, 0, 0]);
    assert_eq!(res.pre, [BpStats::new(); 3]);
    assert_eq!(res.post, [BpStats::new(); 3]);
}
