use engine::performance::count_tilemaps;

#[test]
fn counts_of_tilemaps() {
    let c = count_tilemaps(&vec![10, 0, 5], 4);
    assert_eq!(c.draw_calls, 3);
    assert_eq!(c.total_tiles, 15);
    assert_eq!(c.triangles, 30);
    assert_eq!(c.vertices, 90);
    assert_eq!(c.tilemap_bytes, 1500);
    assert_eq!(c.collider_bytes, 200);
}

#[test]
fn no_tilemaps() {
    let c = count_tilemaps(&Vec::new(), 0);
    assert_eq!(c.draw_calls, 0);
    assert_eq!(c.total_tiles, 0);
    assert_eq!(c.triangles, 0);
    assert_eq!(c.vertices, 0);
    assert_eq!(c.tilemap_bytes, 0);
    assert_eq!(c.collider_bytes, 0);
}
