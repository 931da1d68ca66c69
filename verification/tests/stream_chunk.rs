use hummock::data_chunk::{DataChunk, DataType, Vis};
use hummock::kafka_split::{parse_i64, KafkaSplit};
use hummock::plan_node::{Convention, PlanNodeId};
use hummock::session::AuthContext;
use hummock::stream_chunk::{
    render_table, NoSuchOpType, Op, OpsMut, StreamChunk, StreamChunkMut, DEFAULT_TABLE_STROKES,
    PRETTY_TABLE_PRESET,
};
use hummock::table::get_second;
use std::sync::Arc;

fn chunk() -> StreamChunk {
    StreamChunk::new(
        vec![Op::Insert, Op::Delete, Op::UpdateDelete, Op::UpdateInsert],
        vec![vec![Some(1), Some(2), None, Some(4)], vec![None, Some(20), Some(30), Some(40)]],
        Some(vec![true, false, true, true]),
    )
}

#[test]
fn test_compact_keeps_visible_rows() {
    let c = chunk();
    assert_eq!(c.data_chunk().capacity(), 4);
    assert_eq!(c.data_chunk().cardinality(), 3);
    let compacted = c.compact();
    assert_eq!(compacted.ops(), &[Op::Insert, Op::UpdateDelete, Op::UpdateInsert]);
    let (ops, columns, vis) = compacted.into_inner();
    assert_eq!(ops.len(), 3);
    assert_eq!(columns, vec![vec![Some(1), None, Some(4)], vec![None, Some(30), Some(40)]]);
    assert_eq!(vis, Vis::Compact(3));
    // a chunk without a bitmap is returned as it is
    let plain = StreamChunk::new(vec![Op::Insert], vec![vec![Some(7)]], None);
    let same = plain.clone().compact();
    assert!(same == plain);
}

#[test]
fn test_from_rows_and_parts() {
    let rows = vec![
        (Op::Insert, vec![Some(1), None]),
        (Op::Delete, vec![Some(2), Some(3)]),
    ];
    let c = StreamChunk::from_rows(&rows, &[DataType::Int64, DataType::Int64]);
    assert_eq!(c.ops(), &[Op::Insert, Op::Delete]);
    assert_eq!(c.data_chunk().columns(), &vec![vec![Some(1), Some(2)], vec![None, Some(3)]]);
    assert_eq!(c.data_chunk().vis(), &Vis::Compact(2));
    let (data, ops) = c.into_parts();
    let back = StreamChunk::from_parts(ops, data);
    assert_eq!(back.ops(), &[Op::Insert, Op::Delete]);
    assert_eq!(back.data_chunk().cardinality(), 2);
    let empty = StreamChunk::from_rows(&[], &[DataType::Int64]);
    assert_eq!(empty.data_chunk().columns(), &vec![vec![]]);
    let d = DataChunk::new(vec![vec![Some(1)]], Vis::Bitmap(vec![false]));
    let (columns, vis) = d.into_parts();
    assert_eq!(columns, vec![vec![Some(1)]]);
    assert_eq!(vis.clone().into_visibility(), Some(vec![false]));
    assert!(!vis.is_set(0));
    assert_eq!(Vis::Compact(3).into_visibility(), None);
    assert_eq!(Vis::Compact(3).len(), 3);
}

#[test]
fn test_project_and_visibility() {
    let c = chunk();
    let p = c.project(&[1, 0, 1]);
    let cols = p.data_chunk().columns();
    assert_eq!(cols.len(), 3);
    assert_eq!(cols[0], vec![None, Some(20), Some(30), Some(40)]);
    assert_eq!(cols[1], vec![Some(1), Some(2), None, Some(4)]);
    assert_eq!(cols[2], cols[0]);
    assert_eq!(p.ops(), c.ops());
    assert_eq!(p.data_chunk().vis(), &Vis::Bitmap(vec![true, false, true, true]));
    let q = c.project_with_vis(&[0], Vis::Compact(4));
    assert_eq!(q.data_chunk().columns().len(), 1);
    assert_eq!(q.data_chunk().cardinality(), 4);
    let w = c.with_visibility(Vis::Bitmap(vec![false; 4]));
    assert_eq!(w.data_chunk().cardinality(), 0);
    assert_eq!(w.data_chunk().columns(), c.data_chunk().columns());
    assert!(c.project(&[]).data_chunk().columns().is_empty());
}

#[test]
fn test_ops_mut_copies_on_first_write() {
    let shared = Arc::new(vec![Op::Insert, Op::Insert]);
    let mut ops = OpsMut::new(shared.clone());
    ops.set(1, Op::Delete);
    ops.set(0, Op::UpdateInsert);
    assert_eq!(*shared, vec![Op::Insert, Op::Insert]);
    assert_eq!(ops.into_ops(), vec![Op::UpdateInsert, Op::Delete]);
    assert_eq!(OpsMut::new(shared).into_ops(), vec![Op::Insert, Op::Insert]);
}

#[test]
fn test_stream_chunk_mut() {
    let mut m = StreamChunkMut::from_chunk(StreamChunk::new(
        vec![Op::Insert, Op::Insert, Op::Insert],
        vec![vec![Some(1), Some(2), Some(3)]],
        None,
    ));
    assert_eq!(m.len(), 3);
    m.set_vis(0, false);
    m.set_op(2, Op::Delete);
    {
        let mut row = m.row_mut(1);
        row.set_op(Op::UpdateDelete);
        row.set_vis(false);
        row.set_vis(true);
    }
    let c = m.into_chunk();
    assert_eq!(c.ops(), &[Op::Insert, Op::UpdateDelete, Op::Delete]);
    assert_eq!(c.data_chunk().vis(), &Vis::Bitmap(vec![false, true, true]));
    assert_eq!(c.data_chunk().columns(), &vec![vec![Some(1), Some(2), Some(3)]]);
}

#[test]
fn test_op_numbers() {
    for (op, n) in [(Op::Insert, 1), (Op::Delete, 2), (Op::UpdateInsert, 3), (Op::UpdateDelete, 4)] {
        assert_eq!(op.to_protobuf(), n);
        assert_eq!(Op::from_protobuf(&n), Ok(op));
    }
    assert_eq!(Op::from_protobuf(&5), Err(NoSuchOpType));
    assert_eq!(Op::from_protobuf(&-1), Err(NoSuchOpType));
}

#[test]
fn test_kafka_split() {
    let mut split = KafkaSplit::new(3, Some(10), None, "topic".to_string());
    assert_eq!(split.get_topic_and_partition(), ("topic".to_string(), 3));
    assert!(split.update_with_offset("-42".to_string()).is_ok());
    assert_eq!(split.start_offset, Some(-42));
    assert!(split.try_update_with_offset("9223372036854775807".to_string()));
    assert_eq!(split.start_offset, Some(i64::MAX));
    assert!(!split.try_update_with_offset("9223372036854775808".to_string()));
    assert!(!split.try_update_with_offset("12a".to_string()));
    assert!(!split.try_update_with_offset("".to_string()));
    assert_eq!(split.start_offset, Some(i64::MAX));
    assert_eq!(split.stop_offset, None);
    assert_eq!(split, KafkaSplit::new(3, Some(i64::MAX), None, "topic".to_string()));
}

#[test]
fn test_small_items() {
    let auth = AuthContext::new("dev".to_string(), "root".to_string(), 7);
    assert_eq!((auth.database.as_str(), auth.user_name.as_str(), auth.user_id), ("dev", "root", 7));
    assert_eq!(get_second::<u8, &str, ()>(Ok((1, "b"))), Ok("b"));
    assert_eq!(get_second::<u8, u8, &str>(Err("e")), Err("e"));
    assert!(PlanNodeId(1) < PlanNodeId(2));
    assert_eq!(format!("{:?}", Convention::Batch), "Batch");
    assert_ne!(Convention::Logical, Convention::Stream);
}

#[test]
fn test_parse_i64_reads_what_std_reads() {
    for text in [
        "0", "-0", "+0", "7", "+7", "-7", "007", "-007", "9223372036854775807",
        "9223372036854775808", "-9223372036854775808", "-9223372036854775809",
        "99999999999999999999", "18446744073709551616", "", "-", "+", "+-1", "--1", " 1", "1 ",
        "1_000", "0x10", "1.0", "a", "12a", "\u{661}", "1e3",
    ] {
        assert_eq!(parse_i64(text), text.parse::<i64>().ok(), "{:?}", text);
    }
    assert_eq!(parse_i64("-9223372036854775808"), Some(i64::MIN));
    assert_eq!(parse_i64("1234567890"), Some(1_234_567_890));
}

#[test]
fn test_distribution_and_keyed_row() {
    use_distribution();
}

fn use_distribution() {
    let fallback = hummock::table::Distribution::fallback();
    assert!(fallback.dist_key_in_pk_indices.is_empty());
    assert_eq!(fallback.vnodes.len(), 256);
    assert_eq!(fallback.vnodes.iter().filter(|b| **b).count(), 1);
    assert!(fallback.is_vnode_set(hummock::table::DEFAULT_VNODE));
    assert!(!fallback.is_vnode_set(1));
    assert!(!fallback.is_vnode_set(256));
    assert_eq!(hummock::table::Distribution::fallback_vnodes(), fallback.vnodes);
    let all = hummock::table::Distribution::all_vnodes(vec![2, 0]);
    assert_eq!(all.dist_key_in_pk_indices, vec![2, 0]);
    assert_eq!(all.vnodes, vec![true; 256]);
    assert!(all.is_vnode_set(255));
    let row = hummock::table::KeyedRow::new(
        hummock::key::TableKey(vec![0x01, 0x02, b'k', b'e', b'y']),
        vec![Some(5), None],
    );
    assert_eq!(row.vnode(), 0x0102);
    assert_eq!(row.key(), b"key");
    assert_eq!(row.into_owned_row(), vec![Some(5), None]);
}

#[test]
fn test_to_pretty_string() {
    let chunk = StreamChunk::from_rows(
        &[
            (Op::Insert, vec![Some(1), Some(6)]),
            (Op::Delete, vec![Some(2), None]),
            (Op::UpdateDelete, vec![Some(3), Some(7)]),
            (Op::UpdateInsert, vec![Some(4), None]),
        ],
        &[DataType::Int64, DataType::Int64],
    );
    assert_eq!(
        chunk.to_pretty_string(),
        "\
+----+---+---+
|  + | 1 | 6 |
|  - | 2 |   |
| U- | 3 | 7 |
| U+ | 4 |   |
+----+---+---+"
    );
}

#[test]
fn test_pretty_rows_leave_invisible_rows_out() {
    let c = chunk();
    assert_eq!(
        c.pretty_rows(),
        vec![
            ("+".to_string(), vec!["1".to_string(), "".to_string()]),
            ("U-".to_string(), vec!["".to_string(), "30".to_string()]),
            ("U+".to_string(), vec!["4".to_string(), "40".to_string()]),
        ]
    );
    assert_eq!(
        c.to_pretty_string(),
        "\
+----+---+----+
|  + | 1 |    |
| U- |   | 30 |
| U+ | 4 | 40 |
+----+---+----+"
    );
    let hidden = c.with_visibility(Vis::Bitmap(vec![false; 4]));
    assert_eq!(hidden.to_pretty_string(), "(empty)");
    assert_eq!(StreamChunk::from_rows(&[], &[DataType::Int64]).to_pretty_string(), "(empty)");
    let negative = StreamChunk::from_rows(&[(Op::Insert, vec![Some(-12)])], &[DataType::Int64]);
    assert_eq!(negative.to_pretty_string(), "+---+-----+\n| + | -12 |\n+---+-----+");
}

fn two_rows() -> Vec<(String, Vec<String>)> {
    vec![
        ("+".to_string(), vec!["1".to_string()]),
        ("U-".to_string(), vec!["22".to_string()]),
    ]
}

#[test]
fn test_render_table_draws_with_the_strokes_of_the_preset() {
    assert_eq!(
        render_table(PRETTY_TABLE_PRESET, &two_rows()),
        "+----+----+\n|  + | 1  |\n| U- | 22 |\n+----+----+"
    );
    // a preset of every stroke replaces the strokes of the full frame
    assert_eq!(
        render_table(DEFAULT_TABLE_STROKES, &two_rows()),
        "+----+----+\n|  + | 1  |\n|----+----|\n| U- | 22 |\n+----+----+"
    );
}

#[test]
fn test_render_table_keeps_the_strokes_that_a_short_preset_leaves_out() {
    assert_eq!(
        render_table("", &two_rows()),
        "+----+----+\n|  + | 1  |\n|----+----|\n| U- | 22 |\n+----+----+"
    );
    assert_eq!(
        render_table("<>", &two_rows()),
        "+----+----+\n<  + | 1  >\n|----+----|\n< U- | 22 >\n+----+----+"
    );
    // characters past the last stroke are left out
    let long = format!("{}xyz", PRETTY_TABLE_PRESET);
    assert_eq!(render_table(&long, &two_rows()), render_table(PRETTY_TABLE_PRESET, &two_rows()));
}
