use echo_note::diarization::{
    assign_speaker_ids, get_diarization_model_info, initial_clusters, merge_clusters, speaker_label,
    speaker_labels, AcousticFeatureEmbedder, DIARIZATION_MODEL_EXPECTED_SIZE,
};

#[test]
fn speaker_label_alphabetical() {
    assert_eq!(speaker_label(0), "Speaker A");
    assert_eq!(speaker_label(1), "Speaker B");
    assert_eq!(speaker_label(25), "Speaker Z");
    assert_eq!(speaker_label(26), "Speaker AA");
    assert_eq!(speaker_label(27), "Speaker AB");
}

#[test]
fn speaker_labels_follow_ids() {
    assert_eq!(speaker_labels(&vec![0, 1, 0, 52]), vec!["Speaker A", "Speaker B", "Speaker A", "Speaker BA"]);
}

#[test]
fn merged_clusters_are_numbered_by_first_appearance() {
    // segments: b a c a b c  -> clusters {0,4} {1,3} {2,5}
    let mut clusters = initial_clusters(6);
    merge_clusters(&mut clusters, 2, 5);
    merge_clusters(&mut clusters, 1, 3);
    merge_clusters(&mut clusters, 0, 3);
    assert_eq!(clusters, vec![vec![0, 4], vec![1, 3], vec![2, 5]]);
    assert_eq!(assign_speaker_ids(&clusters, 6), vec![0, 1, 2, 1, 0, 2]);
}

#[test]
fn later_cluster_first_still_numbers_by_segment_order() {
    let mut clusters = initial_clusters(4);
    merge_clusters(&mut clusters, 1, 3);
    merge_clusters(&mut clusters, 0, 2);
    // clusters: {0,2} {1,3}
    assert_eq!(assign_speaker_ids(&clusters, 4), vec![0, 1, 0, 1]);
}

#[test]
fn no_segments_give_no_ids() {
    let clusters = initial_clusters(0);
    assert!(clusters.is_empty());
    assert!(assign_speaker_ids(&clusters, 0).is_empty());
}

#[test]
fn acoustic_embedding_dimension() {
    let e = AcousticFeatureEmbedder::new();
    assert_eq!(e.dim(), 176);
}

#[test]
fn diarization_model_info_reports_path_only_when_downloaded() {
    let present = get_diarization_model_info("/models/speaker_encoder_int8.onnx", true, Some(9_337_463));
    assert_eq!(present.id, "ecapa-tdnn-speaker-encoder");
    assert_eq!(present.filename, "speaker_encoder_int8.onnx");
    assert_eq!(present.expected_size, DIARIZATION_MODEL_EXPECTED_SIZE);
    assert!(present.is_downloaded);
    assert_eq!(present.actual_size, Some(9_337_463));
    assert_eq!(present.path.as_deref(), Some("/models/speaker_encoder_int8.onnx"));

    let absent = get_diarization_model_info("/models/speaker_encoder_int8.onnx", false, Some(1));
    assert!(!absent.is_downloaded);
    assert_eq!(absent.actual_size, None);
    assert_eq!(absent.path, None);
}
