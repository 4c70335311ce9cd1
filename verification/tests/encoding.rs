use persist_state::antichain::{Antichain, Description};
use persist_state::encoding::UntypedState;
use persist_state::error::StateDecodeErr;
use persist_state::ids::{IdempotencyToken, LeasedReaderId, PartialBatchKey, PartialRollupKey};
use persist_state::proto::{ProtoHandleDebugState, ProtoU64Antichain, ProtoTrace, ProtoWriterState};
use persist_state::state::{
    HandleDebugState, HollowBatch, HollowBatchPart, LeasedReaderState, SeqNo, State, TypedState,
    WriterState,
};
use persist_state::state_diff::{ApplyDiffErr, StateDiff, StateFieldDiff, StateFieldValDiff};
use persist_state::trace::Trace;
use persist_state::version::Version;
use persist_state::wire::Wire;
use persist_state::{ShardId, DEFAULT_READ_LEASE_DURATION_MS};

#[test]
fn applier_version_state() {
    let v1 = Version::new(1, 0, 0);
    let v2 = Version::new(2, 0, 0);
    let v3 = Version::new(3, 0, 0);

    // Code version v2 evaluates and writes out some State.
    let shard_id = ShardId::new();
    let state = TypedState::<(), (), u64, i64>::new(v2.clone(), shard_id, "".to_owned(), 0);
    let mut buf = Vec::new();
    state.encode(&mut buf);

    // We can read it back using persist code v2 and v3.
    assert_eq!(
        &UntypedState::<u64>::decode(&v2, &buf)
            .unwrap()
            .check_codecs::<(), (), i64>(&shard_id)
            .unwrap(),
        &state
    );
    assert_eq!(
        &UntypedState::<u64>::decode(&v3, &buf)
            .unwrap()
            .check_codecs::<(), (), i64>(&shard_id)
            .unwrap(),
        &state
    );

    // But we can't read it back using v1 because v1 might corrupt it by
    // losing or misinterpreting something written out by a future version
    // of code.
    let v1_res = UntypedState::<u64>::decode(&v1, &buf);
    assert!(matches!(v1_res, Err(StateDecodeErr::FutureVersion { .. })));
}

#[test]
fn applier_version_state_diff() {
    let v1 = Version::new(1, 0, 0);
    let v2 = Version::new(2, 0, 0);
    let v3 = Version::new(3, 0, 0);

    // Code version v2 evaluates and writes out some State.
    let diff = StateDiff::<u64>::new(
        v2.clone(),
        SeqNo(0),
        SeqNo(1),
        2,
        PartialRollupKey("rollup".to_owned()),
    );
    let mut buf = Vec::new();
    diff.encode(&mut buf);

    // We can read it back using persist code v2 and v3.
    assert_eq!(StateDiff::<u64>::decode(&v2, &buf).unwrap(), diff);
    assert_eq!(StateDiff::<u64>::decode(&v3, &buf).unwrap(), diff);

    // But we can't read it back using v1 because v1 might corrupt it by
    // losing or misinterpreting something written out by a future version
    // of code.
    let v1_res = StateDiff::<u64>::decode(&v1, &buf);
    assert!(matches!(v1_res, Err(StateDecodeErr::FutureVersion { .. })));
}

#[test]
fn hollow_batch_migration_keys() {
    let x = HollowBatch {
        desc: Description::new(
            Antichain::from_elem(1u64),
            Antichain::from_elem(2u64),
            Antichain::from_elem(3u64),
        ),
        len: 4,
        parts: vec![HollowBatchPart {
            key: PartialBatchKey("a".to_owned()),
            encoded_size_bytes: 5,
        }],
        runs: vec![],
    };
    let mut expected = x.clone();
    let mut old = x.into_proto();
    // Old wire records had keys instead of parts.
    old.deprecated_keys = vec!["b".to_owned()];
    // We don't expect to see a record with keys _and_ parts, only one or
    // the other, but we have a defined output, so may as well test it.
    // We fill in 0 for encoded_size_bytes when we migrate from keys.
    expected.parts.push(HollowBatchPart {
        key: PartialBatchKey("b".to_owned()),
        encoded_size_bytes: 0,
    });
    assert_eq!(HollowBatch::<u64>::from_proto(old).unwrap(), expected);
}

#[test]
fn reader_state_migration_lease_duration() {
    let x = LeasedReaderState {
        seqno: SeqNo(1),
        since: Antichain::from_elem(2u64),
        last_heartbeat_timestamp_ms: 3,
        debug: HandleDebugState {
            hostname: "host".to_owned(),
            purpose: "purpose".to_owned(),
        },
        // Old wire records had no lease_duration_ms field.
        lease_duration_ms: 0,
    };
    let mut expected = x.clone();
    let old = x.into_proto();
    // We fill in the default read lease duration when we migrate from unset.
    expected.lease_duration_ms = DEFAULT_READ_LEASE_DURATION_MS;
    assert_eq!(LeasedReaderState::<u64>::from_proto(old).unwrap(), expected);
}

#[test]
fn writer_state_migration_most_recent_write() {
    let proto = ProtoWriterState {
        last_heartbeat_timestamp_ms: 1,
        lease_duration_ms: 2,
        // Old wire records had no most_recent_write_token or
        // most_recent_write_upper.
        most_recent_write_token: "".to_owned(),
        most_recent_write_upper: None,
        debug: Some(ProtoHandleDebugState {
            hostname: "host".to_owned(),
            purpose: "purpose".to_owned(),
        }),
    };
    let expected = WriterState {
        last_heartbeat_timestamp_ms: proto.last_heartbeat_timestamp_ms,
        lease_duration_ms: proto.lease_duration_ms,
        most_recent_write_token: IdempotencyToken::sentinel(),
        most_recent_write_upper: Antichain::from_elem(0),
        debug: HandleDebugState {
            hostname: "host".to_owned(),
            purpose: "purpose".to_owned(),
        },
    };
    assert_eq!(WriterState::<u64>::from_proto(proto).unwrap(), expected);
}

fn shard_one() -> ShardId {
    ShardId::from_proto("s00000000-0000-0000-0000-000000000001".to_owned()).unwrap()
}

#[test]
fn codec_gate_end_to_end() {
    // Create a shard at seqno 0 with codecs ("()", "()", "u64", "i64"),
    // empty collections, version 2.0.0, empty hostname. Encode, decode
    // untyped at build 3.0.0, and gate.
    let shard_id = shard_one();
    let state = TypedState::<(), (), u64, i64>::new(
        Version::new(2, 0, 0),
        shard_id,
        "".to_owned(),
        0,
    );
    let mut buf = Vec::new();
    state.encode(&mut buf);
    let v3 = Version::new(3, 0, 0);

    let ok = UntypedState::<u64>::decode(&v3, &buf).unwrap();
    assert!(ok.check_codecs::<(), (), i64>(&shard_id).is_ok());

    // Any alien codec tuple is refused, and the mismatch carries both
    // tuples: requested key codec differs from the actual one.
    let again = UntypedState::<u64>::decode(&v3, &buf).unwrap();
    let err = again.check_codecs::<u64, (), i64>(&shard_id).unwrap_err();
    assert_eq!(err.requested.0, "u64");
    assert_eq!(err.actual.0, "()");
    assert_ne!(err.requested.0, err.actual.0);
}

#[test]
fn check_ts_codec_gate() {
    let shard_id = shard_one();
    let state = TypedState::<(), (), u64, i64>::new(
        Version::new(2, 0, 0),
        shard_id,
        "".to_owned(),
        0,
    );
    let mut buf = Vec::new();
    state.encode(&mut buf);
    let v2 = Version::new(2, 0, 0);

    let ok = UntypedState::<u64>::decode(&v2, &buf).unwrap();
    assert!(ok.check_ts_codec(&shard_id).is_ok());

    // Decoding with the wrong timestamp type fails the weak gate too.
    let wrong = UntypedState::<i64>::decode(&v2, &buf).unwrap();
    let err = wrong.check_ts_codec(&shard_id).unwrap_err();
    assert_eq!(err.requested, "i64");
    assert_eq!(err.actual, "u64");
}

#[test]
fn state_round_trip_with_collections() {
    let shard_id = shard_one();
    let mut state: State<u64> = State::new(
        Version::new(13, 1, 0),
        shard_id,
        "some-host:1234".to_owned(),
        987654321,
    );
    state.collections.rollups.append(
        SeqNo(4),
        PartialRollupKey("rollup/4".to_owned()),
    );
    state.collections.rollups.append(
        SeqNo(7),
        PartialRollupKey("rollup/7".to_owned()),
    );
    let reader = LeasedReaderId::from_proto(
        "r11111111-2222-3333-4444-555555555555".to_owned(),
    )
    .unwrap();
    state.collections.leased_readers.insert_new(
        reader.0,
        LeasedReaderState {
            seqno: SeqNo(7),
            since: Antichain::from_elem(3u64),
            last_heartbeat_timestamp_ms: 10,
            lease_duration_ms: 60000,
            debug: HandleDebugState {
                hostname: "reader-host".to_owned(),
                purpose: "test".to_owned(),
            },
        },
    );
    state.collections.trace.downgrade_since(&Antichain::from_elem(2u64));
    state.collections.trace.push_batch(HollowBatch {
        desc: Description::new(
            Antichain::from_elem(0u64),
            Antichain::from_elem(10u64),
            Antichain::from_elem(2u64),
        ),
        parts: vec![HollowBatchPart {
            key: PartialBatchKey("part-0".to_owned()),
            encoded_size_bytes: 42,
        }],
        len: 17,
        runs: vec![1],
    });

    let proto = state.into_proto("()".to_owned(), "()".to_owned(), "i64".to_owned());
    let mut buf = Vec::new();
    proto.write(&mut buf);
    let parsed = persist_state::proto::ProtoStateRollup::read(&buf).unwrap();
    let decoded = UntypedState::<u64>::from_proto(parsed).unwrap();
    let typed = decoded.check_codecs::<(), (), i64>(&shard_id).unwrap();
    assert_eq!(typed.state, state);
}

#[test]
fn diff_round_trip_with_deltas() {
    let mut diff = StateDiff::<u64>::new(
        Version::new(2, 1, 0),
        SeqNo(7),
        SeqNo(8),
        1000,
        PartialRollupKey("rollup/7".to_owned()),
    );
    diff.hostname.push(StateFieldDiff {
        key: (),
        val: StateFieldValDiff::Update("old-host".to_owned(), "new-host".to_owned()),
    });
    diff.last_gc_req.push(StateFieldDiff {
        key: (),
        val: StateFieldValDiff::Update(SeqNo(1), SeqNo(2)),
    });
    diff.rollups.push(StateFieldDiff {
        key: SeqNo(8),
        val: StateFieldValDiff::Insert(PartialRollupKey("rollup/8".to_owned())),
    });
    let reader = LeasedReaderId::from_proto(
        "r11111111-2222-3333-4444-555555555555".to_owned(),
    )
    .unwrap();
    diff.leased_readers.push(StateFieldDiff {
        key: reader,
        val: StateFieldValDiff::Insert(LeasedReaderState {
            seqno: SeqNo(8),
            since: Antichain::from_elem(3u64),
            last_heartbeat_timestamp_ms: 11,
            lease_duration_ms: 60000,
            debug: HandleDebugState {
                hostname: "h".to_owned(),
                purpose: "p".to_owned(),
            },
        }),
    });
    diff.since.push(StateFieldDiff {
        key: (),
        val: StateFieldValDiff::Update(Antichain::from_elem(2u64), Antichain::from_elem(3u64)),
    });
    diff.spine.push(StateFieldDiff {
        key: HollowBatch {
            desc: Description::new(
                Antichain::from_elem(0u64),
                Antichain::from_elem(5u64),
                Antichain::from_elem(1u64),
            ),
            parts: vec![],
            len: 3,
            runs: vec![],
        },
        val: StateFieldValDiff::Insert(()),
    });

    let mut buf = Vec::new();
    diff.encode(&mut buf);
    let decoded = StateDiff::<u64>::decode(&Version::new(2, 1, 0), &buf).unwrap();
    assert_eq!(decoded, diff);
}

#[test]
fn apply_diff_is_not_idempotent() {
    // A diff applies once; applying it again fails on the seqno gate.
    let shard_id = shard_one();
    let state: State<u64> = State::new(Version::new(2, 0, 0), shard_id, "".to_owned(), 0);
    let diff = StateDiff::<u64>::new(
        Version::new(2, 0, 0),
        SeqNo(0),
        SeqNo(1),
        5,
        PartialRollupKey("rollup/0".to_owned()),
    );
    let applied = state.apply_diff(&diff).unwrap();
    assert_eq!(applied.seqno, SeqNo(1));
    assert_eq!(applied.walltime_ms, 5);
    let second = applied.apply_diff(&diff);
    assert_eq!(
        second.unwrap_err(),
        ApplyDiffErr::SeqnoMismatch {
            expected: SeqNo(1),
            got: SeqNo(0)
        }
    );
}

#[test]
fn apply_encoded_diffs_alien_ts_codec_is_noop() {
    let shard_id = shard_one();
    let state = TypedState::<(), (), u64, i64>::new(
        Version::new(2, 0, 0),
        shard_id,
        "".to_owned(),
        0,
    );
    let mut buf = Vec::new();
    state.encode(&mut buf);
    let v2 = Version::new(2, 0, 0);
    // Decoded with the wrong timestamp type: applying diffs must silently
    // do nothing rather than corrupt the unvalidated state.
    let mut wrong = UntypedState::<i64>::decode(&v2, &buf).unwrap();
    let mut diff_buf = Vec::new();
    StateDiff::<i64>::new(
        Version::new(2, 0, 0),
        SeqNo(0),
        SeqNo(1),
        5,
        PartialRollupKey("rollup/0".to_owned()),
    )
    .encode(&mut diff_buf);
    let cfg = persist_state::PersistConfig::new(v2.clone());
    let diffs = vec![persist_state::VersionedData {
        seqno: SeqNo(1),
        data: diff_buf,
    }];
    assert!(wrong.apply_encoded_diffs(&cfg, &diffs).is_ok());
    assert_eq!(wrong.seqno(), SeqNo(0));

    // With the right timestamp type the same diffs advance the state.
    let mut right = UntypedState::<u64>::decode(&v2, &buf).unwrap();
    let mut diff_buf2 = Vec::new();
    StateDiff::<u64>::new(
        Version::new(2, 0, 0),
        SeqNo(0),
        SeqNo(1),
        5,
        PartialRollupKey("rollup/0".to_owned()),
    )
    .encode(&mut diff_buf2);
    let diffs2 = vec![persist_state::VersionedData {
        seqno: SeqNo(1),
        data: diff_buf2,
    }];
    assert!(right.apply_encoded_diffs(&cfg, &diffs2).is_ok());
    assert_eq!(right.seqno(), SeqNo(1));
}

#[test]
fn shard_id_string_form() {
    // The canonical string form is the `s` prefix plus the hyphenated
    // lower-case UUID, and it parses back to the same bytes.
    let id = ShardId([
        0, 0, 0, 0, 0, 0, 0, 0, 0, 0, 0, 0, 0, 0, 0, 1,
    ]);
    assert_eq!(id.into_proto(), "s00000000-0000-0000-0000-000000000001");
    assert_eq!(ShardId::from_proto(id.into_proto()).unwrap(), id);
    assert!(ShardId::from_proto("w00000000-0000-0000-0000-000000000001".to_owned()).is_err());
    assert!(ShardId::from_proto("snot-a-uuid".to_owned()).is_err());
    assert!(ShardId::from_proto("".to_owned()).is_err());
}

#[test]
fn version_string_form() {
    assert_eq!(Version::new(13, 1, 0).into_proto(), "13.1.0");
    assert_eq!(
        Version::from_proto("13.1.0"),
        Some(Version::new(13, 1, 0))
    );
    assert_eq!(Version::from_proto("not-a-version"), None);
    // An empty applier version decodes as the infinitely old 0.0.0: a
    // state stamped with it is accepted by every build.
    let lo = Version::new(0, 0, 0);
    assert!(!Version::new(1, 0, 0).lt(&lo));
    // Pre-release identifiers and build metadata survive parse and
    // re-encode unchanged.
    let pre = Version::from_proto("2.0.0-rc.1+abc.7").unwrap();
    assert_eq!(pre.pre, vec!["rc".to_owned(), "1".to_owned()]);
    assert_eq!(pre.build, vec!["abc".to_owned(), "7".to_owned()]);
    assert_eq!(pre.into_proto(), "2.0.0-rc.1+abc.7");
}

#[test]
fn version_prerelease_precedence() {
    let v = |s: &str| Version::from_proto(s).unwrap();
    // A pre-release precedes its release.
    assert!(v("2.0.0-rc.1").lt(&v("2.0.0")));
    assert!(!v("2.0.0").lt(&v("2.0.0-rc.1")));
    // Numeric identifiers compare numerically and precede alphanumerics.
    assert!(v("1.0.0-alpha").lt(&v("1.0.0-alpha.1")));
    assert!(v("1.0.0-alpha.1").lt(&v("1.0.0-alpha.beta")));
    assert!(v("1.0.0-alpha.beta").lt(&v("1.0.0-beta")));
    assert!(v("1.0.0-beta.2").lt(&v("1.0.0-beta.11")));
    assert!(v("1.0.0-beta.11").lt(&v("1.0.0-rc.1")));
    // Build metadata does not affect precedence.
    assert!(!v("1.0.0+a").lt(&v("1.0.0+b")));
    assert!(!v("1.0.0+b").lt(&v("1.0.0+a")));
}

#[test]
fn version_gate_on_prerelease_build() {
    // A pre-release build reading a record stamped with its own release
    // must halt: 2.0.0-dev < 2.0.0.
    let shard_id = shard_one();
    let state = TypedState::<(), (), u64, i64>::new(
        Version::new(2, 0, 0),
        shard_id,
        "".to_owned(),
        0,
    );
    let mut buf = Vec::new();
    state.encode(&mut buf);
    let dev = Version::from_proto("2.0.0-dev").unwrap();
    assert!(matches!(
        UntypedState::<u64>::decode(&dev, &buf),
        Err(StateDecodeErr::FutureVersion { .. })
    ));

    // And a record stamped with a pre-release survives the round trip
    // with its stamp intact, readable by the release build.
    let state2 = TypedState::<(), (), u64, i64>::new(
        Version::from_proto("2.0.0-rc.1").unwrap(),
        shard_id,
        "".to_owned(),
        0,
    );
    let mut buf2 = Vec::new();
    state2.encode(&mut buf2);
    let decoded = UntypedState::<u64>::decode(&Version::new(2, 0, 0), &buf2)
        .unwrap()
        .check_codecs::<(), (), i64>(&shard_id)
        .unwrap();
    assert_eq!(&decoded, &state2);
    assert_eq!(
        decoded.state.applier_version.into_proto(),
        "2.0.0-rc.1"
    );
}

#[test]
fn trace_rehydration_rejects_nonmonotone_since() {
    // A batch whose since the trace's own since strictly exceeds is
    // rejected; the rest rehydrate with since-monotonicity intact.
    let good = Trace::<u64>::default();
    let mut proto = good.into_proto();
    proto.since = Some(ProtoU64Antichain {
        elements: vec![5u64.to_le_bytes()],
    });
    let batch = HollowBatch::<u64> {
        desc: Description::new(
            Antichain::from_elem(0u64),
            Antichain::from_elem(10u64),
            Antichain::from_elem(3u64),
        ),
        parts: vec![],
        len: 0,
        runs: vec![],
    };
    proto.spine = vec![batch.into_proto()];
    assert!(Trace::<u64>::from_proto(proto).is_err());

    // The same batch is accepted when the trace's since is at or below
    // its own.
    let mut proto2 = ProtoTrace {
        since: Some(ProtoU64Antichain {
            elements: vec![3u64.to_le_bytes()],
        }),
        spine: vec![],
    };
    let batch2 = HollowBatch::<u64> {
        desc: Description::new(
            Antichain::from_elem(0u64),
            Antichain::from_elem(10u64),
            Antichain::from_elem(3u64),
        ),
        parts: vec![],
        len: 0,
        runs: vec![],
    };
    proto2.spine = vec![batch2.into_proto()];
    let t = Trace::<u64>::from_proto(proto2).unwrap();
    assert_eq!(t.batches().len(), 1);
}

#[test]
fn decode_discards_unknown_trailing_fields() {
    // A record written by a future version carries extra fields under new,
    // higher tags; this decoder discards them and still reads the state.
    let shard_id = shard_one();
    let state = TypedState::<(), (), u64, i64>::new(
        Version::new(2, 0, 0),
        shard_id,
        "".to_owned(),
        0,
    );
    let mut buf = Vec::new();
    state.encode(&mut buf);
    // An unknown field: tag 16 (beyond every known tag), three content bytes.
    buf.push(16u8);
    buf.push(3u8);
    buf.push(0xde);
    buf.push(0xad
    );
    buf.push(0xbe);
    let v2 = Version::new(2, 0, 0);
    let decoded = UntypedState::<u64>::decode(&v2, &buf).unwrap();
    assert_eq!(&decoded.check_codecs::<(), (), i64>(&shard_id).unwrap(), &state);

    // A trailing field with a tag the decoder knows is malformed, not an
    // extension, and is refused.
    let mut buf2 = Vec::new();
    state.encode(&mut buf2);
    buf2.push(1u8);
    buf2.push(0u8);
    assert!(matches!(
        UntypedState::<u64>::decode(&v2, &buf2),
        Err(StateDecodeErr::Undecodable)
    ));
}

#[test]
fn decode_rejects_garbage() {
    let v2 = Version::new(2, 0, 0);
    assert!(matches!(
        UntypedState::<u64>::decode(&v2, &vec![0xff, 0xff, 0x01]),
        Err(StateDecodeErr::Undecodable)
    ));
    assert!(matches!(
        StateDiff::<u64>::decode(&v2, &vec![]),
        Err(StateDecodeErr::Undecodable)
    ));
}
