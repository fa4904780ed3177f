use check_dataset_and_labels::labels::{
    class_index, class_index_of_lowered, class_name, classify_object, get_label_names,
    get_objects_in_image, Annotation, LabelRecord, ObjectOutcome, CLASS_COUNT,
};
use check_dataset_and_labels::layout::{
    data_yaml, image_sources, image_target, label_file_name, label_target,
};
use check_dataset_and_labels::matching::{contains_sorted, match_image_and_label_names};
use check_dataset_and_labels::split::{contains_name, plan_splits, train_len, Split, SplitIndex};

fn names(list: &[&str]) -> Vec<String> {
    list.iter().map(|s| s.to_string()).collect()
}

fn ann(category: Option<&str>, has_box: bool) -> Annotation {
    Annotation { category: category.map(|c| c.to_string()), has_box }
}

#[test]
fn match_keeps_image_order_and_reports_unmatched() {
    let images = names(&["c.jpg", "a.jpg", "b.jpg", "d.jpg"]);
    let labels = names(&["d.jpg", "z.jpg", "a.jpg", "c.jpg"]);
    let m = match_image_and_label_names(images, labels);
    assert_eq!(m.matched, names(&["c.jpg", "a.jpg", "d.jpg"]));
    assert_eq!(m.unmatched, names(&["b.jpg"]));
}

#[test]
fn match_is_exact_on_bytes() {
    let images = names(&["A.jpg", "a.jpeg", "a.jpg "]);
    let labels = names(&["a.jpg"]);
    let m = match_image_and_label_names(images, labels);
    assert!(m.matched.is_empty());
    assert_eq!(m.unmatched.len(), 3);
}

#[test]
fn match_with_empty_sides() {
    let m = match_image_and_label_names(Vec::new(), names(&["a.jpg"]));
    assert!(m.matched.is_empty() && m.unmatched.is_empty());
    let m = match_image_and_label_names(names(&["a.jpg"]), Vec::new());
    assert!(m.matched.is_empty());
    assert_eq!(m.unmatched, names(&["a.jpg"]));
}

#[test]
fn match_many_unsorted_labels() {
    let images: Vec<String> = (0..200).map(|i| format!("img{:03}.jpg", i)).collect();
    let labels: Vec<String> = (0..200).rev().filter(|i| i % 3 == 0).map(|i| format!("img{:03}.jpg", i)).collect();
    let m = match_image_and_label_names(images, labels);
    let expected: Vec<String> = (0..200).filter(|i| i % 3 == 0).map(|i| format!("img{:03}.jpg", i)).collect();
    assert_eq!(m.matched, expected);
    assert_eq!(m.unmatched.len(), 200 - expected.len());
}

#[test]
fn binary_search_on_sorted_names() {
    let sorted = names(&["a", "ab", "b", "ba", "c"]);
    for n in ["a", "ab", "b", "ba", "c"] {
        assert!(contains_sorted(&sorted, &n.to_string()));
    }
    for n in ["", "aa", "bb", "d", "A"] {
        assert!(!contains_sorted(&sorted, &n.to_string()));
    }
}

#[test]
fn split_hundred_names() {
    let all: Vec<String> = (0..100).map(|i| format!("{}.jpg", i)).collect();
    let plan = plan_splits(all.clone());
    assert_eq!(plan.train, all[0..80].to_vec());
    assert_eq!(plan.val, all[80..90].to_vec());
    assert_eq!(plan.test, all[90..100].to_vec());
    for (i, n) in all.iter().enumerate() {
        let expected = if i < 80 { Split::Train } else if i < 90 { Split::Val } else { Split::Test };
        assert_eq!(plan.split_of(n), Some(expected));
        let hits = [&plan.train, &plan.val, &plan.test].iter().filter(|s| s.contains(n)).count();
        assert_eq!(hits, 1);
    }
    assert_eq!(plan.split_of(&"missing.jpg".to_string()), None);
}

#[test]
fn split_sizes_small() {
    let cases: [(usize, usize, usize, usize); 8] = [
        (0, 0, 0, 0),
        (1, 0, 0, 1),
        (2, 1, 0, 1),
        (3, 2, 0, 1),
        (5, 4, 0, 1),
        (7, 5, 1, 1),
        (10, 8, 1, 1),
        (13, 10, 1, 2),
    ];
    for (n, t, v, s) in cases {
        let all: Vec<String> = (0..n).map(|i| i.to_string()).collect();
        let plan = plan_splits(all);
        assert_eq!((plan.train.len(), plan.val.len(), plan.test.len()), (t, v, s), "n = {}", n);
    }
}

#[test]
fn train_len_has_no_overflow() {
    let n = usize::MAX;
    assert_eq!(train_len(n) as u128, (n as u128) * 4 / 5);
    assert_eq!(train_len(1000), 800);
    assert_eq!(train_len(999), 799);
}

#[test]
fn contains_name_is_exact() {
    let v = names(&["x", "y"]);
    assert!(contains_name(&v, &"y".to_string()));
    assert!(!contains_name(&v, &"Y".to_string()));
}

#[test]
fn split_folders() {
    assert_eq!(Split::Train.folder(), "train");
    assert_eq!(Split::Val.folder(), "val");
    assert_eq!(Split::Test.folder(), "test");
}

#[test]
fn class_lookup_ignores_case() {
    assert_eq!(class_index("Car"), Some(2));
    assert_eq!(class_index("car"), Some(2));
    assert_eq!(class_index("PEDESTRIAN"), Some(0));
    assert_eq!(class_index("Traffic Sign"), Some(9));
    assert_eq!(class_index("unicycle"), None);
    assert_eq!(class_index_of_lowered("Car"), None);
    assert_eq!(class_index_of_lowered("traffic light"), Some(8));
}

#[test]
fn class_names_in_order() {
    let expected = [
        "pedestrian", "rider", "car", "truck", "bus", "train", "motorcycle", "bicycle",
        "traffic light", "traffic sign",
    ];
    assert_eq!(CLASS_COUNT, 10);
    for (i, n) in expected.iter().enumerate() {
        assert_eq!(class_name(i), *n);
        assert_eq!(class_index_of_lowered(n), Some(i));
    }
}

#[test]
fn upper_and_lower_case_give_the_same_outcome() {
    assert_eq!(classify_object(&ann(Some("Car"), true)), ObjectOutcome::Kept(2));
    assert_eq!(classify_object(&ann(Some("car"), true)), ObjectOutcome::Kept(2));
}

#[test]
fn unknown_class_is_skipped() {
    assert_eq!(classify_object(&ann(Some("unicycle"), true)), ObjectOutcome::UnknownClass);
    let record = LabelRecord { name: "a.jpg".to_string(), labels: Some(vec![ann(Some("unicycle"), true)]) };
    let out = get_objects_in_image(&record);
    assert_eq!(out, vec![ObjectOutcome::UnknownClass]);
    assert!(!out.iter().any(|o| matches!(o, ObjectOutcome::Kept(_))));
}

#[test]
fn malformed_annotations_are_skipped() {
    assert_eq!(classify_object(&ann(None, true)), ObjectOutcome::Malformed);
    assert_eq!(classify_object(&ann(Some("car"), false)), ObjectOutcome::Malformed);
    assert_eq!(classify_object(&ann(Some("unicycle"), false)), ObjectOutcome::Malformed);
}

#[test]
fn absent_labels_give_no_lines() {
    let record = LabelRecord { name: "a.jpg".to_string(), labels: None };
    assert!(get_objects_in_image(&record).is_empty());
    let record = LabelRecord { name: "a.jpg".to_string(), labels: Some(Vec::new()) };
    assert!(get_objects_in_image(&record).is_empty());
}

#[test]
fn one_bad_annotation_does_not_stop_the_rest() {
    let record = LabelRecord {
        name: "a.jpg".to_string(),
        labels: Some(vec![
            ann(Some("Bus"), true),
            ann(None, false),
            ann(Some("drivable area"), true),
            ann(Some("traffic light"), true),
        ]),
    };
    assert_eq!(
        get_objects_in_image(&record),
        vec![
            ObjectOutcome::Kept(4),
            ObjectOutcome::Malformed,
            ObjectOutcome::UnknownClass,
            ObjectOutcome::Kept(8),
        ]
    );
}

#[test]
fn label_names_in_record_order() {
    let records = vec![
        LabelRecord { name: "b.jpg".to_string(), labels: None },
        LabelRecord { name: "a.jpg".to_string(), labels: Some(Vec::new()) },
    ];
    assert_eq!(get_label_names(&records), names(&["b.jpg", "a.jpg"]));
}

#[test]
fn label_file_names() {
    assert_eq!(label_file_name("0a0a0b1a-7c39d841.jpg"), "0a0a0b1a-7c39d841.txt");
    assert_eq!(label_file_name("photo.png"), "photo.txt");
    assert_eq!(label_file_name("a.b.jpg"), "a.b.txt");
    assert_eq!(label_file_name("noext"), "noext.txt");
    assert_eq!(label_file_name(""), ".txt");
    assert_eq!(label_file_name("é.jpg"), "é.txt");
}

#[test]
fn output_paths() {
    assert_eq!(image_target("out", Split::Val, "x.jpg"), "out/val/images/x.jpg");
    assert_eq!(label_target("out", Split::Test, "x.jpg"), "out/test/labels/x.txt");
    assert_eq!(
        image_sources("src", "x.jpg"),
        names(&["src/train/x.jpg", "src/val/x.jpg", "src/test/x.jpg"])
    );
}

#[test]
fn manifest_text() {
    let expected = "train: ./out/train/images\nval: ./out/val/images\ntest: ./out/test/images\n\nnc: 10\nnames: ['pedestrian', 'rider', 'car', 'truck', 'bus', 'train', 'motorcycle', 'bicycle', 'traffic light', 'traffic sign']";
    assert_eq!(data_yaml("./out"), expected);
}

#[test]
fn split_index_agrees_with_plan() {
    let all: Vec<String> = (0..100).rev().map(|i| format!("n{}.jpg", i)).collect();
    let plan = plan_splits(all.clone());
    let index = SplitIndex::new(plan_splits(all.clone()));
    assert_eq!(index.plan().train, plan.train);
    for n in all.iter() {
        assert_eq!(index.split_of(n), plan.split_of(n));
    }
    assert_eq!(index.split_of(&all[0]), Some(Split::Train));
    assert_eq!(index.split_of(&all[85]), Some(Split::Val));
    assert_eq!(index.split_of(&all[99]), Some(Split::Test));
    assert_eq!(index.split_of(&"other.jpg".to_string()), None);
}
