use zeph::membership::member::MemberState;

#[test]
fn member_state_u8_roundtrips_and_ranks() {
    for s in [MemberState::Alive, MemberState::Suspect, MemberState::Dead] {
        assert_eq!(MemberState::from_u8(s.to_u8()), s);
    }
    assert!(MemberState::Alive.rank() < MemberState::Suspect.rank());
    assert!(MemberState::Suspect.rank() < MemberState::Dead.rank());
    assert_eq!(MemberState::from_u8(99), MemberState::Alive); // unknown byte is Alive
}
