use rcodec::byte_vector::{from_vec, ByteVector};
use rcodec::codec::{
    constant, eager, hlist_flat_prepend_codec, hlist_prepend_codec, hnil_codec, ignore,
    struct_codec, uint16, uint32, uint64, uint8, with_context, Codec, ContextCodec, DropLeftCodec,
    EagerCodec, FixedSizeCodec, FromHList, HListPrependCodec, HNilCodec, IdentityCodec,
    IgnoreCodec, TailCodecFn, ToHList, Uint64Codec,
};
use rcodec::hlist::{HCons, HNil};
use rcodec::View;

fn bv(bytes: &[u8]) -> ByteVector {
    from_vec(bytes.to_vec())
}

#[derive(Debug, PartialEq, Eq, Clone)]
struct TestStruct1 {
    foo: u8,
    bar: u8,
}

impl View for TestStruct1 {
    type V = TestStruct1;

    fn view(&self) -> TestStruct1 {
        self.clone()
    }
}

impl FromHList<HCons<u8, HCons<u8, HNil>>> for TestStruct1 {
    fn spec_from_hlist(h: <HCons<u8, HCons<u8, HNil>> as View>::V) -> TestStruct1 {
        Self::from_hlist(h)
    }

    fn from_hlist(h: HCons<u8, HCons<u8, HNil>>) -> Self {
        TestStruct1 { foo: h.0, bar: (h.1).0 }
    }
}

impl ToHList<HCons<u8, HCons<u8, HNil>>> for TestStruct1 {
    fn spec_to_hlist(v: TestStruct1) -> <HCons<u8, HCons<u8, HNil>> as View>::V {
        v.to_hlist()
    }

    fn to_hlist(&self) -> HCons<u8, HCons<u8, HNil>> {
        HCons(self.foo, HCons(self.bar, HNil))
    }
}

#[test]
fn record_structs_should_work() {
    let s1 = TestStruct1::from_hlist(HCons(7u8, HCons(3u8, HNil)));
    assert_eq!(s1.foo, 7u8);
    assert_eq!(s1.bar, 3u8);
}

#[test]
fn a_struct_codec_should_round_trip() {
    let codec = struct_codec::<TestStruct1, _>(hlist_prepend_codec(
        uint8,
        hlist_prepend_codec(uint8, hnil_codec()),
    ));
    let value = TestStruct1 { foo: 7u8, bar: 3u8 };
    let encoded = codec.encode(&value).unwrap();
    assert_eq!(encoded, bv(&[7, 3]));
    assert_eq!(codec.decode(&encoded).unwrap().value, value);
}

#[test]
fn boxed_codecs_should_work() {
    let codec = Box::new(struct_codec::<TestStruct1, _>(hlist_prepend_codec(
        uint8,
        hlist_prepend_codec(uint8, hnil_codec()),
    )));
    let value = TestStruct1 { foo: 7u8, bar: 3u8 };
    let encoded = codec.encode(&value).unwrap();
    assert_eq!(encoded, bv(&[7, 3]));
    assert_eq!(codec.decode(&encoded).unwrap().value, value);
}

#[test]
fn lib_a_u8_value_should_round_trip() {
    let bv0 = uint8.encode(&7u8).unwrap();
    assert_eq!(bv0, bv(&[7]));
    assert_eq!(uint8.decode(&bv0).unwrap().value, 7u8);
}

#[test]
fn lib_a_u32_value_should_round_trip() {
    let codec = uint32;
    let v0 = 258u32;
    let encoded = codec.encode(&v0).unwrap();
    assert_eq!(encoded, bv(&[0x00, 0x00, 0x01, 0x02]));
    let v1 = codec.decode(&encoded).unwrap().value;
    assert_eq!(v0, v1);
}

#[derive(Debug, PartialEq, Eq, Clone)]
struct TestStruct {
    byte_field: u8,
    short_field: u16,
}

impl View for TestStruct {
    type V = TestStruct;

    fn view(&self) -> TestStruct {
        self.clone()
    }
}

impl FromHList<HCons<u8, HCons<u16, HNil>>> for TestStruct {
    fn spec_from_hlist(h: <HCons<u8, HCons<u16, HNil>> as View>::V) -> TestStruct {
        Self::from_hlist(h)
    }

    fn from_hlist(h: HCons<u8, HCons<u16, HNil>>) -> Self {
        TestStruct { byte_field: h.0, short_field: (h.1).0 }
    }
}

impl ToHList<HCons<u8, HCons<u16, HNil>>> for TestStruct {
    fn spec_to_hlist(v: TestStruct) -> <HCons<u8, HCons<u16, HNil>> as View>::V {
        v.to_hlist()
    }

    fn to_hlist(&self) -> HCons<u8, HCons<u16, HNil>> {
        HCons(self.byte_field, HCons(self.short_field, HNil))
    }
}

#[test]
fn a_simple_struct_should_round_trip() {
    let codec = struct_codec::<TestStruct, _>(hlist_prepend_codec(
        uint8,
        hlist_prepend_codec(uint16, hnil_codec()),
    ));
    let s0 = TestStruct { byte_field: 7u8, short_field: 3u16 };
    let encoded = codec.encode(&s0).unwrap();
    assert_eq!(encoded, bv(&[7, 0, 3]));
    let s1 = codec.decode(&encoded).unwrap().value;
    assert_eq!(s0, s1);
}

#[derive(Debug, PartialEq, Eq, Clone)]
struct PacketHeader {
    version: u8,
    port: u16,
    checksum: u16,
    data_len: u16,
}

type HeaderFields = HCons<u8, HCons<u16, HCons<u16, HCons<u16, HNil>>>>;

impl View for PacketHeader {
    type V = PacketHeader;

    fn view(&self) -> PacketHeader {
        self.clone()
    }
}

impl FromHList<HeaderFields> for PacketHeader {
    fn spec_from_hlist(h: <HeaderFields as View>::V) -> PacketHeader {
        Self::from_hlist(h)
    }

    fn from_hlist(h: HeaderFields) -> Self {
        PacketHeader { version: h.0, port: (h.1).0, checksum: ((h.1).1).0, data_len: (((h.1).1).1).0 }
    }
}

impl ToHList<HeaderFields> for PacketHeader {
    fn spec_to_hlist(v: PacketHeader) -> <HeaderFields as View>::V {
        v.to_hlist()
    }

    fn to_hlist(&self) -> HeaderFields {
        HCons(self.version, HCons(self.port, HCons(self.checksum, HCons(self.data_len, HNil))))
    }
}

#[derive(Debug, PartialEq, Eq, Clone)]
struct Packet {
    header: PacketHeader,
    flags: u64,
    data: Vec<u8>,
}

type PacketFields = HCons<PacketHeader, HCons<u64, HCons<Vec<u8>, HNil>>>;

impl View for Packet {
    type V = Packet;

    fn view(&self) -> Packet {
        self.clone()
    }
}

impl FromHList<PacketFields> for Packet {
    fn spec_from_hlist(_h: <PacketFields as View>::V) -> Packet {
        unreachable!("a field list with a byte sequence in it is a proof-time value")
    }

    fn from_hlist(h: PacketFields) -> Self {
        Packet { header: h.0, flags: (h.1).0, data: ((h.1).1).0 }
    }
}

impl ToHList<PacketFields> for Packet {
    fn spec_to_hlist(_v: Packet) -> <PacketFields as View>::V {
        unreachable!("a field list with a byte sequence in it is a proof-time value")
    }

    fn to_hlist(&self) -> PacketFields {
        HCons(self.header.clone(), HCons(self.flags, HCons(self.data.clone(), HNil)))
    }
}

struct PacketBody;

impl TailCodecFn<PacketHeader> for PacketBody {
    type Tail = HListPrependCodec<
        ContextCodec<Uint64Codec>,
        HListPrependCodec<ContextCodec<EagerCodec<FixedSizeCodec<IdentityCodec>>>, HNilCodec>,
    >;

    fn spec_tail(&self, hdr: PacketHeader) -> Self::Tail {
        self.tail_codec(&hdr)
    }

    fn tail_codec(&self, hdr: &PacketHeader) -> Self::Tail {
        hlist_prepend_codec(
            with_context("flags", uint64),
            hlist_prepend_codec(
                with_context("data", eager(rcodec::codec::bytes((hdr.data_len - 8u16) as usize))),
                hnil_codec(),
            ),
        )
    }
}

#[test]
fn a_slightly_more_complex_struct_should_round_trip() {
    let magic = bv(&[0xCA, 0xFE, 0xCA, 0xFE]);

    let header_codec = struct_codec::<PacketHeader, _>(hlist_prepend_codec(
        with_context("version", uint8),
        hlist_prepend_codec(
            with_context("port", uint16),
            hlist_prepend_codec(
                with_context("checksum", uint16),
                hlist_prepend_codec(with_context("data_len", uint16), hnil_codec()),
            ),
        ),
    ));

    let packet_codec = struct_codec::<Packet, _>(rcodec::codec::drop_left(
        with_context("magic", constant(&magic)),
        rcodec::codec::drop_left(
            with_context("padding", ignore(4)),
            hlist_flat_prepend_codec(with_context("header", header_codec), PacketBody),
        ),
    ));

    let p0 = Packet {
        header: PacketHeader { version: 1, port: 80, checksum: 0, data_len: 13 },
        flags: 666,
        data: vec![1, 2, 3, 4, 5],
    };
    let encoded = packet_codec.encode(&p0).unwrap();
    let p1 = packet_codec.decode(&encoded).unwrap().value;
    assert_eq!(p0, p1);
}

#[test]
fn the_hcodec_macro_should_work_with_a_mix_of_operations() {
    struct Junk;

    impl TailCodecFn<u8> for Junk {
        type Tail = DropLeftCodec<
            ContextCodec<IgnoreCodec>,
            HListPrependCodec<
                ContextCodec<rcodec::codec::Uint8Codec>,
                DropLeftCodec<
                    ContextCodec<IgnoreCodec>,
                    HListPrependCodec<
                        ContextCodec<rcodec::codec::Uint8Codec>,
                        HListPrependCodec<ContextCodec<rcodec::codec::Uint8Codec>, HNilCodec>,
                    >,
                >,
            >,
        >;

        fn spec_tail(&self, junk_len: u8) -> Self::Tail {
            self.tail_codec(&junk_len)
        }

        fn tail_codec(&self, junk_len: &u8) -> Self::Tail {
            rcodec::codec::drop_left(
                with_context("skip", ignore(1)),
                hlist_prepend_codec(
                    with_context("first", uint8),
                    rcodec::codec::drop_left(
                        with_context("junk", ignore(*junk_len as usize)),
                        hlist_prepend_codec(
                            with_context("second", uint8),
                            hlist_prepend_codec(with_context("third", uint8), hnil_codec()),
                        ),
                    ),
                ),
            )
        }
    }

    let m = bv(&[0xCA, 0xFE]);
    let codec = rcodec::codec::drop_left(
        with_context("magic", constant(&m)),
        hlist_prepend_codec(
            with_context("version", uint8),
            hlist_flat_prepend_codec(with_context("junk_len", uint8), Junk),
        ),
    );
    let input = HCons(1u8, HCons(3u8, HCons(7u8, HCons(3u8, HCons(1u8, HNil)))));
    let expected = bv(&[0xCA, 0xFE, 0x01, 0x03, 0x00, 0x07, 0x00, 0x00, 0x00, 0x03, 0x01]);
    let encoded = codec.encode(&input).unwrap();
    assert_eq!(encoded, expected);
    assert_eq!(codec.decode(&encoded).unwrap().value, input);
}

#[test]
fn struct_codec_errors_carry_field_labels() {
    let header_codec = struct_codec::<TestStruct, _>(hlist_prepend_codec(
        with_context("byte_field", uint8),
        hlist_prepend_codec(with_context("short_field", uint16), hnil_codec()),
    ));
    assert_eq!(
        header_codec.decode(&bv(&[7, 0])).unwrap_err().message(),
        "short_field: Requested read offset of 0 and length 2 bytes exceeds vector length of 1"
    );
}
