use asm_common::bitstream::BitBuf;
use asm_common::perms::{ChunkSink, Input, InputRef, InputStream, Perm, Perms};

fn owned(code: &[u8], r: &[bool], w: &[bool], x: &[bool], nj: &[bool]) -> Option<Input> {
    Input::new(
        code.to_vec(),
        Perms {
            r: BitBuf::from_bools(r),
            w: BitBuf::from_bools(w),
            x: BitBuf::from_bools(x),
            nj: BitBuf::from_bools(nj),
        },
    )
}

#[test]
fn construction_rejects_mismatched_lengths() {
    // Code of length 3 against a read stream of length 2.
    let inp = owned(&[1, 2, 3], &[true, false], &[true, false, true], &[false, false, false], &[
        false, false, false,
    ]);
    assert!(inp.is_none());

    let code = [0x90u8, 0x90];
    let two = BitBuf::from_bools(&[true, true]);
    let three = BitBuf::from_bools(&[true, true, true]);
    let short = InputRef::new(
        &code,
        Perms { r: two.as_bits(), w: two.as_bits(), x: two.as_bits(), nj: three.as_bits() },
    );
    assert!(short.is_none());
}

#[test]
fn construction_accepts_equal_lengths() {
    let inp = owned(&[1, 2, 3], &[true, false, true], &[false, false, false], &[true, true, true], &[
        false, true, false,
    ])
    .unwrap();
    assert_eq!(inp.len(), 3);

    let code = [0x90u8, 0x90];
    let bits = BitBuf::from_bools(&[true, false]);
    let iref = InputRef::new(
        &code,
        Perms { r: bits.as_bits(), w: bits.as_bits(), x: bits.as_bits(), nj: bits.as_bits() },
    )
    .unwrap();
    assert_eq!(iref.len(), 2);
}

#[test]
fn iter_pairs_bytes_with_tags() {
    let inp = owned(&[7, 8], &[true, false], &[false, true], &[true, true], &[false, false])
        .unwrap();
    let items = inp.as_ref().iter();
    assert_eq!(items, vec![
        (7u8, Perms { r: true, w: false, x: true, nj: false }),
        (8u8, Perms { r: false, w: true, x: true, nj: false }),
    ]);
}

#[test]
fn extend_keeps_streams_in_lockstep() {
    let mut inp = Input::empty();
    assert_eq!(inp.len(), 0);
    inp.extend(&[
        (0x90, Perms { r: true, w: false, x: true, nj: false }),
        (0xCC, Perms { r: true, w: true, x: false, nj: true }),
    ]);
    assert_eq!(inp.len(), 2);
    let (code, r, w, x, nj) = inp.into_parts();
    assert_eq!(code, vec![0x90, 0xCC]);
    assert_eq!(r.len(), 2);
    assert_eq!(w.len(), 2);
    assert_eq!(x.len(), 2);
    assert_eq!(nj.len(), 2);
    assert_eq!((r.get(0), r.get(1)), (true, true));
    assert_eq!((w.get(0), w.get(1)), (false, true));
    assert_eq!((x.get(0), x.get(1)), (true, false));
    assert_eq!((nj.get(0), nj.get(1)), (false, true));
}

#[test]
fn subref_narrows_all_five_streams() {
    let inp = owned(
        &[1, 2, 3, 4],
        &[true, false, true, false],
        &[false, true, false, true],
        &[true, true, false, false],
        &[false, false, true, true],
    )
    .unwrap();
    let whole = inp.as_ref();
    let mid = whole.subref(1..3);
    assert_eq!(mid.len(), 2);
    assert_eq!(mid.iter(), vec![
        (2u8, Perms { r: false, w: true, x: true, nj: false }),
        (3u8, Perms { r: true, w: false, x: false, nj: true }),
    ]);
    assert_eq!(mid.nest().iter(), mid.iter());
}

#[test]
fn to_owned_copies_the_view() {
    let inp = owned(&[5, 6], &[true, true], &[false, false], &[true, false], &[false, true])
        .unwrap();
    let copy = inp.as_ref().to_owned();
    assert_eq!(copy.as_ref().iter(), inp.as_ref().iter());
}

#[test]
fn write_consumes_everything_at_once() {
    let src = owned(&[1, 2, 3], &[true, true, true], &[false, false, false], &[true, true, true], &[
        false, false, false,
    ])
    .unwrap();
    let mut sink = Input::empty();
    let n = sink.write(src.as_ref()).unwrap();
    assert_eq!(n, 3);
    assert_eq!(sink.len(), 3);
    assert_eq!(sink.as_ref().iter(), src.as_ref().iter());
}

#[test]
fn write_all_equals_single_write() {
    let src = owned(&[9, 8, 7], &[true, false, true], &[false, true, false], &[true, true, false], &[
        false, false, true,
    ])
    .unwrap();
    let mut one = Input::empty();
    one.write(src.as_ref()).unwrap();
    let mut all = Input::empty();
    all.write_all(src.as_ref()).unwrap();
    assert_eq!(one.as_ref().iter(), all.as_ref().iter());
}

#[test]
fn chunked_write_all_accumulates_the_whole_view() {
    let src = owned(
        &[10, 20, 30, 40, 50],
        &[true, false, true, false, true],
        &[false, true, false, true, false],
        &[true, true, false, false, true],
        &[false, false, true, true, false],
    )
    .unwrap();
    let mut sink = ChunkSink { inner: Input::empty(), chunk: 2 };
    sink.write_all(src.as_ref()).unwrap();
    assert_eq!(sink.inner.as_ref().iter(), src.as_ref().iter());

    // A chunk bound of one byte gives the same accumulated state too.
    let mut tiny = ChunkSink { inner: Input::empty(), chunk: 1 };
    tiny.write_all(src.as_ref()).unwrap();
    assert_eq!(tiny.inner.as_ref().iter(), src.as_ref().iter());
}

#[test]
fn chunked_write_reports_partial_progress() {
    let src = owned(&[1, 2, 3], &[true, true, true], &[true, true, true], &[true, true, true], &[
        true, true, true,
    ])
    .unwrap();
    let mut sink = ChunkSink { inner: Input::empty(), chunk: 2 };
    let n = sink.write(src.as_ref()).unwrap();
    assert_eq!(n, 2);
    assert_eq!(sink.inner.len(), 2);
}

#[test]
fn zero_chunk_sink_fails_instead_of_stalling() {
    let src = owned(&[1], &[true], &[true], &[true], &[true]).unwrap();
    let mut sink = ChunkSink { inner: Input::empty(), chunk: 0 };
    assert!(sink.write_all(src.as_ref()).is_err());
    assert_eq!(sink.inner.len(), 0);
}

#[test]
fn perm_tags_compare() {
    assert_eq!(Perm::Read, Perm::Read);
    assert_ne!(Perm::Exec, Perm::NoJump);
    assert_ne!(Perm::Write, Perm::Read);
}

#[test]
fn perms_map_applies_to_all_four() {
    let p = Perms { r: 1u32, w: 2u32, x: 3u32, nj: 4u32 };
    let doubled = p.map(|v: u32| v * 2);
    assert_eq!(doubled, Perms { r: 2, w: 4, x: 6, nj: 8 });
}

#[test]
fn perms_try_map_stops_at_first_failure() {
    let p = Perms { r: 1u32, w: 2u32, x: 3u32, nj: 4u32 };
    let ok: Result<Perms<u32>, &str> = p.try_map(|v: u32| Ok(v + 10));
    assert_eq!(ok.unwrap(), Perms { r: 11, w: 12, x: 13, nj: 14 });
    let err: Result<Perms<u32>, u32> = p.try_map(|v: u32| if v >= 3 { Err(v) } else { Ok(v) });
    assert_eq!(err.unwrap_err(), 3);
}

#[test]
fn perms_as_ref_borrows_fields() {
    let p = Perms { r: 10u8, w: 20u8, x: 30u8, nj: 40u8 };
    let b = p.as_ref();
    assert_eq!((*b.r, *b.w, *b.x, *b.nj), (10, 20, 30, 40));
}
