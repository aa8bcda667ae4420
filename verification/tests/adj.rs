use ssbh_data::adj_data::{Adj, AdjData, AdjEntry, AdjEntryData, Error, MAX_ADJACENT_VERTICES};

#[test]
fn convert_adj_empty() {
    let adj = Adj { entries: Vec::new(), index_buffer: Vec::new() };

    let data = AdjData { entries: Vec::new() };

    assert_eq!(data, AdjData::try_from(&adj).unwrap());
    let packed = Adj::try_from(&data).unwrap();
    assert_eq!(adj.entries, packed.entries);
    assert_eq!(adj.index_buffer, packed.index_buffer);
}

#[test]
fn convert_adj_single_entry() {
    let adj = Adj {
        entries: vec![AdjEntry { mesh_object_index: 12, index_buffer_offset: 0 }],
        index_buffer: vec![2, 3, 4, 5],
    };

    let data = AdjData {
        entries: vec![AdjEntryData { mesh_object_index: 12, vertex_adjacency: vec![2, 3, 4, 5] }],
    };

    assert_eq!(data, AdjData::try_from(&adj).unwrap());
    let packed = Adj::try_from(&data).unwrap();
    assert_eq!(adj.entries, packed.entries);
    assert_eq!(adj.index_buffer, packed.index_buffer);
}

#[test]
fn convert_adj_multiple_entries() {
    let adj = Adj {
        entries: vec![
            AdjEntry { mesh_object_index: 0, index_buffer_offset: 0 },
            AdjEntry { mesh_object_index: 3, index_buffer_offset: 2 },
            AdjEntry { mesh_object_index: 2, index_buffer_offset: 8 },
        ],
        index_buffer: vec![0, 1, 1, 1, 2, 2],
    };

    let data = AdjData {
        entries: vec![
            AdjEntryData { mesh_object_index: 0, vertex_adjacency: vec![0] },
            AdjEntryData { mesh_object_index: 3, vertex_adjacency: vec![1, 1, 1] },
            AdjEntryData { mesh_object_index: 2, vertex_adjacency: vec![2, 2] },
        ],
    };

    assert_eq!(data, AdjData::try_from(&adj).unwrap());
    let packed = Adj::try_from(&data).unwrap();
    assert_eq!(adj.entries, packed.entries);
    assert_eq!(adj.index_buffer, packed.index_buffer);
}

#[test]
fn create_adj_data_invalid_offset_first_entry() {
    let adj = Adj {
        entries: vec![
            AdjEntry { mesh_object_index: 0, index_buffer_offset: 4 },
            AdjEntry { mesh_object_index: 1, index_buffer_offset: 10 },
        ],
        index_buffer: vec![2, 3, 4, 5],
    };
    let result = AdjData::try_from(&adj);
    assert!(matches!(
        result,
        Err(Error::BufferOffsetOutOfRange { start: 4, end: 10, buffer_size: 8 })
    ));
}

#[test]
fn create_adj_data_invalid_offset_last_entry() {
    let adj = Adj {
        entries: vec![AdjEntry { mesh_object_index: 0, index_buffer_offset: 12 }],
        index_buffer: vec![2, 3, 4, 5],
    };
    let result = AdjData::try_from(&adj);
    assert!(matches!(
        result,
        Err(Error::BufferOffsetOutOfRange { start: 12, end: 8, buffer_size: 8 })
    ));
}

fn flatten<T, const N: usize>(x: Vec<[T; N]>) -> Vec<T> {
    // Allow for visually grouping indices.
    x.into_iter().flatten().collect()
}

#[test]
fn triangle_adjacency_empty() {
    assert!(ssbh_data::adj_data::triangle_adjacency(&[], &[0.0f32; 0], MAX_ADJACENT_VERTICES)
        .is_empty());
}

#[test]
fn triangle_adjacency_single_vertex_none_adjacent() {
    assert_eq!(
        vec![-1; 18],
        ssbh_data::adj_data::triangle_adjacency(&[], &[0.0f32], MAX_ADJACENT_VERTICES)
    );
}

#[test]
fn triangle_adjacency_single_face() {
    assert_eq!(
        flatten(vec![[1, 2, -1], [2, 0, -1], [0, 1, -1]]),
        ssbh_data::adj_data::triangle_adjacency(&[0, 1, 2], &[0.0f32, 0.5, 1.0], 3)
    );
}

#[test]
fn triangle_adjacency_three_adjacent_faces() {
    assert_eq!(
        flatten(vec![
            [1, 2, 1, 2, 2, 1, -1],
            [2, 0, 2, 0, 0, 2, -1],
            [0, 1, 0, 1, 1, 0, -1]
        ]),
        ssbh_data::adj_data::triangle_adjacency(
            &[0, 1, 2, 2, 0, 1, 1, 0, 2],
            &[0.0f32, 0.5, 1.0],
            7
        )
    );
}

#[test]
fn triangle_adjacency_two_adjacent_faces_split_vertex() {
    // Vertex 0 and vertex 3 are the same.
    // This means they each have two adjacent faces.
    assert_eq!(
        flatten(vec![
            [1, 2, 4, 5, -1],
            [2, 0, -1, -1, -1],
            [0, 1, -1, -1, -1],
            [1, 2, 4, 5, -1],
            [5, 3, -1, -1, -1],
            [3, 4, -1, -1, -1],
        ]),
        ssbh_data::adj_data::triangle_adjacency(
            &[0, 1, 2, 3, 4, 5],
            &[0.0f32, 0.5, 1.0, 0.0, 1.5, 2.0],
            5
        )
    );
}
