use process_dispatcher::uuid_text::format_hyphenated;

#[test]
fn hyphenated_form_of_known_values() {
    assert_eq!(
        format_hyphenated(0),
        "00000000-0000-0000-0000-000000000000"
    );
    assert_eq!(
        format_hyphenated(u128::MAX),
        "ffffffff-ffff-ffff-ffff-ffffffffffff"
    );
    assert_eq!(
        format_hyphenated(0xa1a2_a3a4_b1b2_c1c2_d1d2_d3d4_d5d6_d7d8),
        "a1a2a3a4-b1b2-c1c2-d1d2-d3d4d5d6d7d8"
    );
    assert_eq!(
        format_hyphenated(1),
        "00000000-0000-0000-0000-000000000001"
    );
}

#[test]
fn hyphenated_form_agrees_with_the_uuid_crate() {
    for v in [
        0u128,
        1,
        u128::MAX,
        0xa1a2_a3a4_b1b2_c1c2_d1d2_d3d4_d5d6_d7d8,
        0x0123_4567_89ab_cdef_0123_4567_89ab_cdef,
    ] {
        assert_eq!(
            format_hyphenated(v),
            uuid::Uuid::from_u128(v).hyphenated().to_string()
        );
    }
    let fresh = uuid::Uuid::new_v4();
    assert_eq!(format_hyphenated(fresh.as_u128()), fresh.hyphenated().to_string());
}

#[test]
fn hyphenated_form_round_trips_through_the_uuid_crate() {
    let v = 0xdead_beef_0000_1111_2222_3333_4444_5555u128;
    let s = format_hyphenated(v);
    assert_eq!(uuid::Uuid::parse_str(&s).unwrap().as_u128(), v);
}
