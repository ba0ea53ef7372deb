use nodedb_lite::dispatch::kv::{KvHandler, KvOp};
use nodedb_lite::error::LiteError;
use nodedb_lite::kv::codec;
use nodedb_lite::kv::execute;
use nodedb_lite::kv::execute::KvRun;
use nodedb_lite::kv::fields;
use nodedb_lite::kv::fields::{Balance, Funds, UpdateValue};
use nodedb_lite::kv::writes;
use nodedb_lite::policy::RlsWriteCheck;
use nodedb_lite::result::Plan;
use nodedb_lite::storage::{Namespace, WriteOp};
use nodedb_lite::value::Datum;
use nodedb_types::Value;
use std::collections::HashMap;

fn update(field: &str, value: i64) -> (String, Vec<u8>) {
    let bytes = zerompk::to_msgpack_vec(&Value::Integer(value)).expect("encode field");
    (field.to_string(), bytes)
}

/// What the plan stores, when it is a single put into the key-value space.
fn stored(p: &Plan) -> (Vec<u8>, Vec<u8>) {
    assert_eq!(p.ops.len(), 1);
    match &p.ops[0] {
        WriteOp::Put { ns, key, value } => {
            assert!(matches!(ns, Namespace::Kv));
            (key.clone(), value.clone())
        }
        WriteOp::Delete { .. } => panic!("a delete"),
    }
}

fn fields_of(raw: &[u8]) -> HashMap<String, Value> {
    let (_, user) = codec::decode_value(raw).expect("decode");
    zerompk::from_msgpack(&user).expect("fields")
}

#[test]
fn stored_keys_join_collection_and_key() {
    assert_eq!(codec::kv_key("c", b"k1"), b"c\0k1".to_vec());
    assert_eq!(codec::split_kv_key(b"c\0k1"), Some((b"c".to_vec(), b"k1".to_vec())));
    assert_eq!(codec::split_kv_key(b"nothing"), None);
}

#[test]
fn stored_values_carry_a_little_endian_deadline() {
    assert_eq!(codec::encode_value(0x0102, b"v"), vec![2, 1, 0, 0, 0, 0, 0, 0, b'v']);
    assert_eq!(codec::decode_value(&codec::encode_value(77, b"abc")), Some((77, b"abc".to_vec())));
    assert_eq!(codec::decode_value(b"short"), None);
}

#[test]
fn zero_deadline_never_expires() {
    assert!(!codec::is_expired(0, u64::MAX));
    assert!(codec::is_expired(5, 5));
    assert!(!codec::is_expired(6, 5));
    assert_eq!(codec::deadline_from_ttl(0, 100, 9), 9);
    assert_eq!(codec::deadline_from_ttl(10, 100, 9), 110);
    assert_eq!(codec::deadline_from_ttl(u64::MAX, 100, 9), u64::MAX);
}

#[test]
fn put_is_read_back_until_it_expires() {
    let p = writes::kv_put("c", b"k", b"value", 50, 1000);
    assert_eq!(p.result.rows_affected, 1);
    let (key, value) = stored(&p);
    assert_eq!(key, b"c\0k".to_vec());
    assert_eq!(codec::decode_value(&value), Some((1050, b"value".to_vec())));
}

#[test]
fn insert_refuses_a_live_key_and_replaces_an_expired_one() {
    let live = codec::encode_value(0, b"old");
    match writes::kv_insert(Some(&live), "c", b"k", b"new", 0, 10) {
        Err(LiteError::BadRequest { detail }) => {
            assert_eq!(detail, "unique_violation: key already exists in collection 'c'")
        }
        other => panic!("unexpected {other:?}"),
    }
    let expired = codec::encode_value(5, b"old");
    let p = writes::kv_insert(Some(&expired), "c", b"k", b"new", 0, 10).expect("insert");
    assert_eq!(codec::decode_value(&stored(&p).1), Some((0, b"new".to_vec())));
}

#[test]
fn insert_if_absent_leaves_a_live_key_alone() {
    let live = codec::encode_value(0, b"old");
    let p = writes::kv_insert_if_absent(Some(&live), "c", b"k", b"new", 0, 10);
    assert!(p.ops.is_empty());
    assert_eq!(p.result.rows_affected, 0);
    let p = writes::kv_insert_if_absent(None, "c", b"k", b"new", 0, 10);
    assert_eq!(p.ops.len(), 1);
    assert_eq!(p.result.rows_affected, 1);
}

#[test]
fn delete_removes_each_key() {
    let p = writes::kv_delete("c", &[b"a".to_vec(), b"b".to_vec()]);
    assert_eq!(p.result.rows_affected, 2);
    assert!(matches!(&p.ops[0], WriteOp::Delete { key, .. } if key == b"c\0a"));
    assert!(matches!(&p.ops[1], WriteOp::Delete { key, .. } if key == b"c\0b"));
}

#[test]
fn batch_put_writes_every_entry() {
    let entries = vec![(b"a".to_vec(), b"1".to_vec()), (b"b".to_vec(), b"2".to_vec())];
    let p = writes::kv_batch_put("c", &entries, 0, 10);
    assert_eq!(p.ops.len(), 2);
    assert_eq!(p.result.rows_affected, 2);
}

#[test]
fn expire_and_persist_move_only_the_deadline() {
    let raw = codec::encode_value(0, b"v");
    let p = writes::kv_expire(Some(&raw), "c", b"k", 30, 100).expect("expire");
    assert_eq!(codec::decode_value(&stored(&p).1), Some((130, b"v".to_vec())));
    let raw = codec::encode_value(130, b"v");
    let p = writes::kv_persist(Some(&raw), "c", b"k").expect("persist");
    assert_eq!(codec::decode_value(&stored(&p).1), Some((0, b"v".to_vec())));
    let p = writes::kv_expire(None, "c", b"k", 30, 100).expect("absent");
    assert!(p.ops.is_empty());
    match writes::kv_persist(Some(b"bad"), "c", b"k") {
        Err(LiteError::Storage { detail }) => assert!(detail.contains("corrupt KV entry")),
        other => panic!("unexpected {other:?}"),
    }
}

#[test]
fn expire_and_persist_renew_an_expired_entry() {
    let raw = codec::encode_value(5, b"v");
    let p = writes::kv_expire(Some(&raw), "c", b"k", 30, 100).expect("expire");
    assert_eq!(codec::decode_value(&stored(&p).1), Some((130, b"v".to_vec())));
    assert_eq!(p.result.rows_affected, 1);
    let p = writes::kv_persist(Some(&raw), "c", b"k").expect("persist");
    assert_eq!(codec::decode_value(&stored(&p).1), Some((0, b"v".to_vec())));
    assert_eq!(p.result.rows_affected, 1);
}

#[test]
fn transfer_adds_to_an_expired_destination() {
    let seed = fields::kv_field_set(None, "acc", b"x", &[update("bal", 10)], false, 1)
        .expect("seed");
    let raw = stored(&seed).1;
    let old = fields::kv_field_set(None, "acc", b"y", &[update("bal", 7), update("o", 1)], false, 1)
        .expect("seed");
    let (_, value) = codec::decode_value(&stored(&old).1).expect("decode");
    let expired = codec::encode_value(5, &value);
    let dest = fields::kv_transfer_dest(Some(&expired)).expect("dest");
    assert_eq!(dest.deadline, 5);
    assert_eq!(dest.fields.len(), 2);
    let funds = Funds::Enough { source: Value::Float(6.0), dest: Value::Float(11.0) };
    let p = fields::kv_transfer(Some(&raw), Some(&expired), "acc", b"x", b"y", "bal", 10, funds)
        .expect("transfer");
    match &p.ops[1] {
        WriteOp::Put { value, .. } => {
            assert_eq!(codec::decode_value(value).expect("decode").0, 5);
            assert_eq!(fields_of(value).len(), 2);
            assert_eq!(fields_of(value).get("bal"), Some(&Value::Float(11.0)));
        }
        _ => panic!("a put expected"),
    }
}

#[test]
fn transfer_of_an_entry_to_itself_writes_it_twice() {
    let seed = fields::kv_field_set(None, "acc", b"x", &[update("bal", 10)], false, 1)
        .expect("seed");
    let raw = stored(&seed).1;
    let funds = Funds::Enough { source: Value::Float(6.0), dest: Value::Float(14.0) };
    let p = fields::kv_transfer(Some(&raw), Some(&raw), "acc", b"x", b"x", "bal", 1, funds)
        .expect("transfer");
    assert_eq!(p.ops.len(), 2);
    assert_eq!(p.result.rows_affected, 2);
    match &p.ops[1] {
        WriteOp::Put { value, .. } => {
            assert_eq!(fields_of(value).get("bal"), Some(&Value::Float(14.0)));
        }
        _ => panic!("a put expected"),
    }
}

#[test]
fn truncate_deletes_only_the_collection() {
    let scanned = vec![b"c\0a".to_vec(), b"c\0b".to_vec(), b"c2\0a".to_vec()];
    let p = writes::kv_truncate("c", &scanned);
    assert_eq!(p.ops.len(), 2);
    assert!(p.ops.iter().all(|op| matches!(op, WriteOp::Delete { key, .. } if key.starts_with(b"c\0"))));
    assert_eq!(p.result.rows_affected, 2, "the entries are counted");
    let again = writes::kv_truncate("c", &[b"c2\0a".to_vec()]);
    assert!(again.ops.is_empty());
    assert_eq!(again.result.rows_affected, 0);
}

#[test]
fn increments_add_up() {
    let p = writes::kv_incr(None, "c", b"n", 5, 0, 10).expect("first");
    assert!(matches!(p.result.rows[0][0], Datum::Integer(5)));
    let raw = stored(&p).1;
    let p = writes::kv_incr(Some(&raw), "c", b"n", -7, 0, 10).expect("second");
    assert!(matches!(p.result.rows[0][0], Datum::Integer(-2)));
    let (_, user) = codec::decode_value(&stored(&p).1).expect("decode");
    assert_eq!(zerompk::from_msgpack::<i64>(&user).expect("int"), -2);
}

#[test]
fn increment_refuses_overflow_text_and_corruption() {
    let max = codec::encode_value(0, &zerompk::to_msgpack_vec(&i64::MAX).expect("encode"));
    match writes::kv_incr(Some(&max), "c", b"n", 1, 0, 10) {
        Err(LiteError::BadRequest { detail }) => assert_eq!(detail, "Incr: integer overflow"),
        other => panic!("unexpected {other:?}"),
    }
    let word = codec::encode_value(0, &zerompk::to_msgpack_vec(&"x".to_string()).expect("encode"));
    match writes::kv_incr(Some(&word), "c", b"n", 1, 0, 10) {
        Err(LiteError::TypeMismatch { detail }) => {
            assert_eq!(detail, "Incr: stored value is not an integer")
        }
        other => panic!("unexpected {other:?}"),
    }
    match writes::kv_incr(Some(b"x"), "c", b"n", 1, 0, 10) {
        Err(LiteError::Storage { detail }) => assert_eq!(detail, "corrupt KV entry"),
        other => panic!("unexpected {other:?}"),
    }
}

#[test]
fn float_counter_starts_at_nothing_and_reads_back_the_sum() {
    let base = writes::kv_incr_float(None, 10).expect("absent");
    assert!(base.current.is_none());
    assert_eq!(base.deadline, 0);
    let p = writes::kv_incr_float_store("c", b"f", 40, Value::Float(2.5)).expect("store");
    assert!(matches!(&p.result.rows[0][0], Datum::Other(Value::Float(x)) if *x == 2.5));
    let raw = stored(&p).1;
    let (_, user) = codec::decode_value(&raw).expect("decode");
    assert_eq!(zerompk::from_msgpack::<f64>(&user).expect("float"), 2.5);
    let base = writes::kv_incr_float(Some(&raw), 10).expect("live");
    assert_eq!(base.current, Some(Value::Float(2.5)));
    assert_eq!(base.deadline, 40);
    let base = writes::kv_incr_float(Some(&raw), 40).expect("expired");
    assert!(base.current.is_none());
}

#[test]
fn float_counter_refuses_what_is_no_float() {
    let word = codec::encode_value(0, &zerompk::to_msgpack_vec(&"x".to_string()).expect("encode"));
    match writes::kv_incr_float(Some(&word), 10) {
        Err(LiteError::BadRequest { detail }) => {
            assert_eq!(detail, "IncrFloat: stored value is not a float")
        }
        other => panic!("unexpected {other:?}"),
    }
    assert!(writes::kv_incr_float_store("c", b"f", 0, Value::Integer(1)).is_err());
}

#[test]
fn compare_and_swap_succeeds_once() {
    let raw = codec::encode_value(0, b"old");
    let p = writes::kv_cas(Some(&raw), "c", b"k", b"old", b"new", 10);
    assert_eq!(p.ops.len(), 1);
    let after = stored(&p).1;
    let p = writes::kv_cas(Some(&after), "c", b"k", b"old", b"new", 10);
    assert!(p.ops.is_empty());
    let p = writes::kv_cas(None, "c", b"k", b"", b"new", 10);
    assert_eq!(p.ops.len(), 1);
}

#[test]
fn get_set_answers_with_the_old_value() {
    let raw = codec::encode_value(0, b"old");
    let p = writes::kv_get_set(Some(&raw), "c", b"k", b"new", 10);
    assert_eq!(codec::decode_value(&stored(&p).1).expect("decode").1, b"new".to_vec());
    assert!(matches!(&p.result.rows[0][0], Datum::Bytes(b) if b == b"old"));
}

#[test]
fn get_set_on_an_expired_entry_stores_a_live_value() {
    let raw = codec::encode_value(5, b"old");
    let p = writes::kv_get_set(Some(&raw), "c", b"k", b"new", 10);
    assert_eq!(p.result.rows_affected, 1);
    assert!(matches!(&p.result.rows[0][0], Datum::Null));
    assert_eq!(codec::decode_value(&stored(&p).1), Some((0, b"new".to_vec())));
    let live = codec::encode_value(50, b"old");
    let p = writes::kv_get_set(Some(&live), "c", b"k", b"new", 10);
    assert_eq!(codec::decode_value(&stored(&p).1), Some((50, b"new".to_vec())));
}

#[test]
fn field_set_if_present_on_absent_key_is_a_no_op() {
    let r = fields::kv_field_set(None, "kvfs", b"missing", &[update("n", 1)], true, 10)
        .expect("field set");
    assert_eq!(r.result.rows_affected, 0);
    assert!(r.ops.is_empty(), "no row is created");
}

#[test]
fn field_set_without_if_present_creates_the_row() {
    let r = fields::kv_field_set(None, "kvfs", b"fresh", &[update("n", 1)], false, 10)
        .expect("field set");
    assert_eq!(r.result.rows_affected, 1);
    assert_eq!(fields_of(&stored(&r).1).get("n"), Some(&Value::Integer(1)));
}

#[test]
fn field_set_if_present_treats_an_expired_row_as_absent() {
    let raw = codec::encode_value(1, b"old");
    let r = fields::kv_field_set(Some(&raw), "kvfs", b"gone", &[update("n", 1)], true, 11)
        .expect("field set");
    assert_eq!(r.result.rows_affected, 0, "an expired row counts as absent");
    assert!(r.ops.is_empty(), "UPDATE must not overwrite an expired row");
}

#[test]
fn field_set_if_present_merges_into_an_existing_row() {
    let seed = fields::kv_field_set(None, "kvfs", b"k", &[update("a", 1)], false, 10).expect("seed");
    let raw = stored(&seed).1;
    let r = fields::kv_field_set(Some(&raw), "kvfs", b"k", &[update("b", 2)], true, 10)
        .expect("field set");
    assert_eq!(r.result.rows_affected, 1);
    let map = fields_of(&stored(&r).1);
    assert_eq!(map.get("a"), Some(&Value::Integer(1)));
    assert_eq!(map.get("b"), Some(&Value::Integer(2)));
}

#[test]
fn field_set_names_the_field_that_cannot_be_decoded() {
    let updates = vec![update("a", 1), ("b".to_string(), vec![0xc1])];
    match fields::kv_field_set(None, "c", b"k", &updates, false, 10) {
        Err(LiteError::Serialization { detail }) => {
            assert!(detail.starts_with("FieldSet decode field 'b': "), "{detail}")
        }
        other => panic!("unexpected {other:?}"),
    }
}

#[test]
fn conflict_update_inserts_or_merges() {
    let updates = vec![("n".to_string(), UpdateValue::Literal(update("n", 9).1))];
    let p = fields::kv_insert_on_conflict_update(None, "c", b"k", b"raw", 0, &updates, 10)
        .expect("insert");
    assert_eq!(codec::decode_value(&stored(&p).1), Some((0, b"raw".to_vec())));
    let seed = fields::kv_field_set(None, "c", b"k", &[update("a", 1)], false, 10).expect("seed");
    let raw = stored(&seed).1;
    let p = fields::kv_insert_on_conflict_update(Some(&raw), "c", b"k", b"raw", 5, &updates, 10)
        .expect("merge");
    let value = stored(&p).1;
    assert_eq!(codec::decode_value(&value).expect("decode").0, 15);
    let map = fields_of(&value);
    assert_eq!(map.get("a"), Some(&Value::Integer(1)));
    assert_eq!(map.get("n"), Some(&Value::Integer(9)));
}

#[test]
fn transfer_moves_a_balance_between_two_entries() {
    let seed = fields::kv_field_set(None, "acc", b"x", &[update("bal", 10), update("o", 3)], false, 1)
        .expect("seed");
    let raw = stored(&seed).1;
    let source = fields::kv_transfer_source(Some(&raw), "acc", 1).expect("source");
    assert!(matches!(
        fields::extract_balance(&source.fields, "bal"),
        Ok(Balance::Integer(10))
    ));
    let dest = fields::kv_transfer_dest(None).expect("dest");
    assert!(matches!(fields::extract_dest_balance(&dest.fields, "bal"), Balance::Missing));
    let funds = Funds::Enough { source: Value::Float(6.0), dest: Value::Float(4.0) };
    let p = fields::kv_transfer(Some(&raw), None, "acc", b"x", b"y", "bal", 1, funds)
        .expect("transfer");
    assert_eq!(p.result.rows_affected, 2);
    assert_eq!(p.ops.len(), 2);
    match (&p.ops[0], &p.ops[1]) {
        (WriteOp::Put { key: a, value: v, .. }, WriteOp::Put { key: b, value: w, .. }) => {
            assert_eq!(a, b"acc\0x");
            assert_eq!(b, b"acc\0y");
            assert_eq!(fields_of(v).get("bal"), Some(&Value::Float(6.0)));
            assert_eq!(fields_of(v).get("o"), Some(&Value::Integer(3)));
            assert_eq!(fields_of(w).get("bal"), Some(&Value::Float(4.0)));
        }
        _ => panic!("two puts expected"),
    }
}

#[test]
fn transfer_refuses_what_the_source_does_not_hold() {
    let seed = fields::kv_field_set(None, "acc", b"x", &[update("bal", 10)], false, 1)
        .expect("seed");
    let raw = stored(&seed).1;
    let short = || Funds::Insufficient { balance: "10".to_string(), amount: "12.5".to_string() };
    match fields::kv_transfer(Some(&raw), None, "acc", b"x", b"y", "bal", 1, short()) {
        Err(LiteError::BadRequest { detail }) => assert_eq!(
            detail,
            "Transfer: insufficient balance (10 < 12.5) in field 'bal'"
        ),
        other => panic!("unexpected {other:?}"),
    }
    match fields::kv_transfer(None, None, "acc", b"x", b"y", "bal", 1, short()) {
        Err(LiteError::BadRequest { detail }) => {
            assert_eq!(detail, "Transfer: source key not found in 'acc'")
        }
        other => panic!("unexpected {other:?}"),
    }
    let enough = Funds::Enough { source: Value::Float(6.0), dest: Value::Float(4.0) };
    match fields::kv_transfer(Some(&raw), Some(&[1]), "acc", b"x", b"y", "bal", 1, enough) {
        Err(LiteError::Storage { detail }) => assert_eq!(detail, "corrupt KV entry: dest"),
        other => panic!("unexpected {other:?}"),
    }
}

#[test]
fn transfer_refuses_a_missing_expired_or_textual_source() {
    match fields::kv_transfer_source(None, "acc", 1) {
        Err(LiteError::BadRequest { detail }) => {
            assert_eq!(detail, "Transfer: source key not found in 'acc'")
        }
        other => panic!("unexpected {other:?}"),
    }
    let expired = codec::encode_value(1, b"x");
    match fields::kv_transfer_source(Some(&expired), "acc", 1) {
        Err(LiteError::BadRequest { detail }) => assert_eq!(detail, "Transfer: source key is expired"),
        other => panic!("unexpected {other:?}"),
    }
    let fields_list = vec![("bal".to_string(), Value::String("ten".into()))];
    match fields::extract_balance(&fields_list, "bal") {
        Err(LiteError::BadRequest { detail }) => {
            assert_eq!(detail, "Transfer: field 'bal' is not numeric")
        }
        other => panic!("unexpected {other:?}"),
    }
    assert!(matches!(fields::extract_dest_balance(&fields_list, "bal"), Balance::Missing));
    let floats = vec![("bal".to_string(), Value::Float(1.5))];
    assert!(matches!(
        fields::extract_balance(&floats, "bal"),
        Ok(Balance::Float(Value::Float(x))) if x == 1.5
    ));
}

#[test]
fn transferred_item_moves_and_no_longer_expires() {
    let raw = codec::encode_value(100, b"item");
    let p = fields::kv_transfer_item(Some(&raw), "bag", "chest", b"sword", b"slot1", 10)
        .expect("move");
    assert!(matches!(&p.ops[0], WriteOp::Delete { key, .. } if key == b"bag\0sword"));
    match &p.ops[1] {
        WriteOp::Put { key, value, .. } => {
            assert_eq!(key, b"chest\0slot1");
            assert_eq!(codec::decode_value(value), Some((0, b"item".to_vec())));
        }
        WriteOp::Delete { .. } => panic!("a put expected"),
    }
    match fields::kv_transfer_item(None, "bag", "chest", b"sword", b"slot1", 10) {
        Err(LiteError::BadRequest { detail }) => {
            assert_eq!(detail, "TransferItem: item not found in source collection 'bag'")
        }
        other => panic!("unexpected {other:?}"),
    }
}

fn incr(check: RlsWriteCheck) -> KvOp {
    KvOp::Incr {
        collection: "c".to_string(),
        key: b"n".to_vec(),
        delta: 5,
        ttl_ms: 0,
        rls_write_check: check,
    }
}

#[test]
fn admitted_operations_are_planned() {
    let seven = zerompk::to_msgpack_vec(&7i64).expect("encode");
    let held = codec::encode_value(0, &seven);
    match execute::run(&incr(RlsWriteCheck::NoPolicyApplies), Some(&held), &[], 10) {
        Ok(KvRun::Planned(p)) => {
            let (_, user) = codec::decode_value(&stored(&p).1).expect("decode");
            let n: i64 = zerompk::from_msgpack(&user).expect("counter");
            assert_eq!(n, 12);
        }
        other => panic!("unexpected {other:?}"),
    }
    let delete = KvOp::Delete {
        collection: "c".to_string(),
        keys: vec![b"a".to_vec(), b"b".to_vec()],
        rls_write_check: RlsWriteCheck::NoPolicyApplies,
        returning: false,
        rls_filters: vec![],
    };
    match execute::run(&delete, None, &[], 10) {
        Ok(KvRun::Planned(p)) => assert_eq!(p.ops.len(), 2),
        other => panic!("unexpected {other:?}"),
    }
}

#[test]
fn refused_operations_plan_nothing() {
    let held = codec::encode_value(0, b"x");
    for check in [RlsWriteCheck::Predicate(vec![1]), RlsWriteCheck::PendingInjection] {
        assert!(execute::run(&incr(check), Some(&held), &[], 10).is_err());
    }
    let put = KvOp::Put {
        collection: "c".to_string(),
        key: b"k".to_vec(),
        value: b"v".to_vec(),
        ttl_ms: 0,
        returning: true,
        rls_filters: vec![],
    };
    assert!(execute::run(&put, None, &[], 10).is_err());
}

#[test]
fn reads_go_to_their_handler() {
    let get = KvOp::Get {
        collection: "c".to_string(),
        key: b"k".to_vec(),
        rls_filters: vec![],
        surrogate_ceiling: Some(7),
    };
    match execute::run(&get, None, &[], 10) {
        Ok(KvRun::Handler(KvHandler::Get { collection, key, surrogate_ceiling })) => {
            assert_eq!(collection, "c");
            assert_eq!(key, b"k");
            assert_eq!(surrogate_ceiling, Some(7));
        }
        other => panic!("unexpected {other:?}"),
    }
}
