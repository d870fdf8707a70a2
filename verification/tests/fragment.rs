use nym_client::chunking::fragment::{ChunkingError, FragmentIdentifier, FRAG_ID_LEN};

#[test]
fn a_real_fragment_counts_from_one() {
    let id = FragmentIdentifier::new(42, 3).unwrap();
    assert_eq!(id.set_id, 42);
    assert_eq!(id.fragment_position, 3);
    assert!(id.is_real_fragment());
    assert!(!id.is_cover_fragment());
    assert_eq!(
        FragmentIdentifier::new(0, 3),
        Err(ChunkingError::MalformedFragmentIdentifier)
    );
    assert_eq!(
        FragmentIdentifier::new(42, 0),
        Err(ChunkingError::MalformedFragmentIdentifier)
    );
    assert_eq!(
        FragmentIdentifier::new(0, 0),
        Err(ChunkingError::MalformedFragmentIdentifier)
    );
    assert_eq!(
        FragmentIdentifier::new(-1, 1),
        Err(ChunkingError::MalformedFragmentIdentifier)
    );
    assert!(FragmentIdentifier::new(i32::MAX, 255).is_ok());
}

#[test]
fn the_cover_identifier_is_no_real_fragment() {
    let cover = FragmentIdentifier::cover();
    assert_eq!((cover.set_id, cover.fragment_position), (0, 0));
    assert!(cover.is_cover_fragment());
    assert!(!cover.is_real_fragment());
    assert_ne!(cover, FragmentIdentifier::new(1, 1).unwrap());
}

#[test]
fn the_bytes_of_an_identifier() {
    assert_eq!(FRAG_ID_LEN, 5);
    assert_eq!(FragmentIdentifier::new(42, 3).unwrap().to_bytes(), [0, 0, 0, 42, 3]);
    assert_eq!(
        FragmentIdentifier::new(0x0102_0304, 5).unwrap().to_bytes(),
        [1, 2, 3, 4, 5]
    );
    assert_eq!(
        FragmentIdentifier::new(i32::MAX, 255).unwrap().to_bytes(),
        [0x7f, 0xff, 0xff, 0xff, 0xff]
    );
    assert_eq!(FragmentIdentifier::cover().to_bytes(), [0, 0, 0, 0, 0]);
}

#[test]
fn what_was_written_is_read_back() {
    for (set_id, position) in [(1, 1), (42, 3), (256, 255), (0x0102_0304, 5), (i32::MAX, 1)] {
        let id = FragmentIdentifier::new(set_id, position).unwrap();
        assert_eq!(FragmentIdentifier::try_from_bytes(&id.to_bytes()), Ok(id));
    }
    let cover = FragmentIdentifier::cover();
    assert_eq!(FragmentIdentifier::try_from_bytes(&cover.to_bytes()), Ok(cover));
}

#[test]
fn bytes_that_name_nothing_are_refused() {
    let malformed = Err(ChunkingError::MalformedFragmentIdentifier);
    assert_eq!(FragmentIdentifier::try_from_bytes(&[]), malformed);
    assert_eq!(FragmentIdentifier::try_from_bytes(&[0, 0, 0, 42]), malformed);
    assert_eq!(FragmentIdentifier::try_from_bytes(&[0, 0, 0, 42, 3, 0]), malformed);
    assert_eq!(FragmentIdentifier::try_from_bytes(&[0x80, 0, 0, 0, 1]), malformed);
    assert_eq!(FragmentIdentifier::try_from_bytes(&[0xff, 0xff, 0xff, 0xff, 1]), malformed);
    assert_eq!(FragmentIdentifier::try_from_bytes(&[0, 0, 0, 0, 1]), malformed);
    assert_eq!(FragmentIdentifier::try_from_bytes(&[0, 0, 0, 1, 0]), malformed);
}
