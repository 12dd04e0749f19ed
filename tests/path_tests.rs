use canvas_engine::buffers::{pointer_layout, split_records, PointerLayout, NODE_STRIDE, PARTICLE_STRIDE};
use canvas_engine::paths::PathStore;

#[test]
fn path_lifecycle() {
    let mut p: PathStore<f32> = PathStore::new();
    p.start_draw_path(1, 1.0, 2.0, 0.5, 0.0, 0xff0000ff, 3.0);
    assert!(p.add_draw_point(1, 4.0, 5.0, 0.6, 0.1));
    assert!(!p.add_draw_point(2, 4.0, 5.0, 0.6, 0.1));
    assert!(p.finish_draw_path(1, true));
    assert!(!p.finish_draw_path(2, true));
    assert_eq!(p.get_draw_paths_count(), 1);
    let path = p.paths().get(&1).unwrap();
    assert_eq!(path.points, vec![1.0, 2.0, 0.5, 0.0, 4.0, 5.0, 0.6, 0.1]);
    assert!(path.closed);
    assert_eq!(path.color, 0xff0000ff);
    assert!(p.remove_draw_path(1));
    assert!(!p.remove_draw_path(1));
    assert_eq!(p.get_draw_paths_count(), 0);
}

#[test]
fn restart_replaces_path_and_clear_drops_all() {
    let mut p: PathStore<f32> = PathStore::new();
    p.start_draw_path(1, 1.0, 1.0, 1.0, 0.0, 1, 1.0);
    p.add_draw_point(1, 2.0, 2.0, 1.0, 0.0);
    p.start_draw_path(1, 9.0, 9.0, 1.0, 0.5, 2, 2.0);
    assert_eq!(p.paths().get(&1).unwrap().points, vec![9.0, 9.0, 1.0, 0.5]);
    p.start_draw_path(2, 0.0, 0.0, 0.0, 0.0, 3, 1.0);
    assert_eq!(p.get_draw_paths_count(), 2);
    p.clear_draw_paths();
    assert_eq!(p.get_draw_paths_count(), 0);
}

#[test]
fn malformed_lengths_are_rejected() {
    let data: Vec<f32> = (0..16).map(|i| i as f32).collect();
    let recs = split_records(&data, NODE_STRIDE).unwrap();
    assert_eq!(recs.len(), 2);
    assert_eq!(recs[1], vec![8.0, 9.0, 10.0, 11.0, 12.0, 13.0, 14.0, 15.0]);
    assert_eq!(split_records::<f32>(&[], NODE_STRIDE), Some(vec![]));
    assert_eq!(split_records(&data[..9], NODE_STRIDE), None);
    assert_eq!(split_records(&data[..13], PARTICLE_STRIDE), None);
    assert_eq!(split_records(&data[..12], PARTICLE_STRIDE).unwrap()[0], vec![0.0, 1.0, 2.0, 3.0, 4.0, 5.0]);
}

#[test]
fn pointer_layout_prefers_pressure() {
    assert_eq!(pointer_layout(10), Some(PointerLayout { stride: 5, buttons_at: 4 }));
    assert_eq!(pointer_layout(8), Some(PointerLayout { stride: 4, buttons_at: 3 }));
    assert_eq!(pointer_layout(20), Some(PointerLayout { stride: 5, buttons_at: 4 }));
    assert_eq!(pointer_layout(7), None);
}
