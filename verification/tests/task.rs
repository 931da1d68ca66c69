use hummock::task::{TaskId, TaskSinkId};
use hummock::text::{i64_to_decimal, u32_to_decimal, u64_to_decimal};

#[test]
fn test_task_sink_id_debug() {
    let task_id = TaskId {
        task_id: 1,
        stage_id: 2,
        query_id: "abc".to_string(),
    };
    let task_sink_id = TaskSinkId {
        task_id,
        sink_id: 3,
    };
    assert_eq!(
        task_sink_id.debug_string(),
        "TaskSinkId { query_id: \"abc\", stage_id: 2, task_id: 1, sink_id: 3 }"
    );
}

#[test]
fn test_task_id_debug_is_derived() {
    let task_id = TaskId {
        task_id: 1,
        stage_id: 2,
        query_id: "abc".to_string(),
    };
    assert_eq!(
        format!("{:?}", task_id),
        "TaskId { task_id: 1, stage_id: 2, query_id: \"abc\" }"
    );
}

#[test]
fn test_decimal_text() {
    assert_eq!(u32_to_decimal(0), "0");
    assert_eq!(u32_to_decimal(7), "7");
    assert_eq!(u32_to_decimal(10), "10");
    assert_eq!(u32_to_decimal(4_294_967_295), "4294967295");
    assert_eq!(u32_to_decimal(1_000_000), format!("{}", 1_000_000u32));
    assert_eq!(u64_to_decimal(u64::MAX), "18446744073709551615");
    assert_eq!(i64_to_decimal(0), "0");
    assert_eq!(i64_to_decimal(-1), "-1");
    assert_eq!(i64_to_decimal(i64::MIN), "-9223372036854775808");
    assert_eq!(i64_to_decimal(i64::MAX), "9223372036854775807");
    assert_eq!(i64_to_decimal(-120), format!("{}", -120i64));
}

#[test]
fn test_task_sink_id_large_numbers() {
    let id = TaskSinkId {
        task_id: TaskId {
            task_id: 4_294_967_295,
            stage_id: 100,
            query_id: String::new(),
        },
        sink_id: 0,
    };
    assert_eq!(
        id.debug_string(),
        "TaskSinkId { query_id: \"\", stage_id: 100, task_id: 4294967295, sink_id: 0 }"
    );
}
