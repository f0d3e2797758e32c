use libnss::interop::{CBuffer, Iterator, NssStatus, OutOfSpace, Response, ToC};
use libnss::service::{
    begin_enumeration, convert_port, convert_proto, endservent, getservbyname_r, getservbyport_r,
    getservent_r, reply, setservent, CService, Service, ServiceHooks,
};

const BASE: usize = 0x7000;
const WIDTH: usize = (usize::BITS / 8) as usize;

fn service(name: &str, aliases: &[&str], port: u16, proto: &str) -> Service {
    Service {
        name: name.to_string(),
        aliases: aliases.iter().map(|s| s.to_string()).collect(),
        port,
        proto: proto.to_string(),
    }
}

fn http() -> Service {
    service("http", &["www"], 80, "tcp")
}

fn ftp() -> Service {
    service("ftp", &[], 21, "tcp")
}

// "http\0", a table of two entries, "www\0", "tcp\0"
fn http_len() -> usize {
    5 + 2 * WIDTH + 4 + 4
}

// "ftp\0", a table of one entry, "tcp\0"
fn ftp_len() -> usize {
    4 + WIDTH + 4
}

fn address_at(region: &[u8], offset: usize) -> usize {
    let mut raw = [0u8; WIDTH];
    raw.copy_from_slice(&region[offset..offset + WIDTH]);
    usize::from_ne_bytes(raw)
}

fn text_at(region: &[u8], address: usize) -> String {
    let start = address - BASE;
    let len = region[start..].iter().position(|b| *b == 0).unwrap();
    String::from_utf8(region[start..start + len].to_vec()).unwrap()
}

fn texts_at(region: &[u8], address: usize) -> Vec<String> {
    let mut found = Vec::new();
    let mut entry = address - BASE;
    while address_at(region, entry) != 0 {
        found.push(text_at(region, address_at(region, entry)));
        entry += WIDTH;
    }
    found
}

fn assert_holds(region: &[u8], head: &CService, expected: &Service) {
    assert_eq!(text_at(region, head.s_name), expected.name);
    assert_eq!(texts_at(region, head.s_aliases), expected.aliases);
    assert_eq!(text_at(region, head.s_proto), expected.proto);
    assert_eq!((head.s_port as u16).to_ne_bytes(), expected.port.to_be_bytes());
    assert_eq!(head.s_port >> 16, 0);
}

struct TwoServices;

impl ServiceHooks for TwoServices {
    fn get_all_entries() -> Response<Vec<Service>> {
        Response::Success(vec![http(), ftp()])
    }

    fn get_service_by_name(name: &str, proto: Option<&str>) -> Response<Service> {
        match (name, proto) {
            ("http", None) | ("http", Some("tcp")) => Response::Success(http()),
            ("ftp", None) | ("ftp", Some("tcp")) => Response::Success(ftp()),
            _ => Response::NotFound,
        }
    }

    fn get_service_by_port(port: u16, proto: Option<&str>) -> Response<Service> {
        match (port, proto) {
            (80, None) | (80, Some("tcp")) => Response::Success(http()),
            (21, None) | (21, Some("tcp")) => Response::Success(ftp()),
            _ => Response::NotFound,
        }
    }
}

struct Down;

impl ServiceHooks for Down {
    fn get_all_entries() -> Response<Vec<Service>> {
        Response::Unavail
    }

    fn get_service_by_name(_name: &str, _proto: Option<&str>) -> Response<Service> {
        Response::Unavail
    }

    fn get_service_by_port(_port: u16, _proto: Option<&str>) -> Response<Service> {
        Response::TryAgain
    }
}

#[test]
fn service_clone_keeps_every_field() {
    let copy = http().clone();
    assert_eq!(copy.name, "http");
    assert_eq!(copy.aliases, vec!["www".to_string()]);
    assert_eq!(copy.port, 80);
    assert_eq!(copy.proto, "tcp");
}

#[test]
fn to_c_lays_out_name_aliases_proto() {
    let mut region = vec![0xAAu8; http_len() + 3];
    let mut buffer = CBuffer::new(&mut region, BASE);
    let head = http().to_c(&mut buffer).unwrap();
    assert_eq!(buffer.pos, http_len());
    assert_eq!(head.s_name, BASE);
    assert_eq!(head.s_aliases, BASE + 5);
    assert_eq!(head.s_proto, BASE + 5 + 2 * WIDTH + 4);
    assert_eq!(head.s_port, 80u16.to_be() as i32);
    assert_eq!(&region[..5], b"http\0");
    assert_eq!(address_at(&region, 5), BASE + 5 + 2 * WIDTH);
    assert_eq!(address_at(&region, 5 + WIDTH), 0);
    assert_eq!(&region[5 + 2 * WIDTH..http_len()], b"www\0tcp\0");
    assert_eq!(&region[http_len()..], &[0xAA, 0xAA, 0xAA]);
}

#[test]
fn to_c_gives_port_in_network_byte_order() {
    let mut region = vec![0u8; 64];
    let mut buffer = CBuffer::new(&mut region, BASE);
    let head = service("x", &[], 0x1234, "udp").to_c(&mut buffer).unwrap();
    assert_eq!((head.s_port as u16).to_ne_bytes(), [0x12, 0x34]);
    assert_eq!(head.s_port, i32::from(u16::from_ne_bytes([0x12, 0x34])));
}

#[test]
fn port_of_the_head_reads_back() {
    for port in [0u16, 1, 21, 80, 255, 256, 0x1234, 0x8000, 65535] {
        let mut region = vec![0u8; 64];
        let mut buffer = CBuffer::new(&mut region, BASE);
        let head = service("x", &[], port, "udp").to_c(&mut buffer).unwrap();
        assert!(0 <= head.s_port && head.s_port <= 65535);
        assert_eq!(head.s_port, i32::from(u16::from_ne_bytes(port.to_be_bytes())));
        assert_eq!(convert_port(head.s_port), port);
    }
}

#[test]
fn to_c_fits_exactly() {
    let mut region = vec![0xAAu8; ftp_len()];
    let mut buffer = CBuffer::new(&mut region, BASE);
    let head = ftp().to_c(&mut buffer).unwrap();
    assert_eq!(buffer.pos, ftp_len());
    assert_holds(&region, &head, &ftp());
}

#[test]
fn to_c_stops_at_the_name() {
    let mut region = vec![0xAAu8; 4];
    let mut buffer = CBuffer::new(&mut region, BASE);
    assert_eq!(http().to_c(&mut buffer), Err(OutOfSpace));
    assert_eq!(buffer.pos, 0);
    assert_eq!(region, vec![0xAAu8; 4]);
}

#[test]
fn to_c_stops_at_the_aliases() {
    let capacity = 5 + 2 * WIDTH + 3;
    let mut region = vec![0xAAu8; capacity];
    let mut buffer = CBuffer::new(&mut region, BASE);
    assert_eq!(http().to_c(&mut buffer), Err(OutOfSpace));
    assert_eq!(buffer.pos, 5);
    let mut expected = vec![0xAAu8; capacity];
    expected[..5].copy_from_slice(b"http\0");
    assert_eq!(region, expected);
}

#[test]
fn to_c_stops_at_the_proto() {
    let capacity = http_len() - 1;
    let mut region = vec![0xAAu8; capacity];
    let mut buffer = CBuffer::new(&mut region, BASE);
    assert_eq!(http().to_c(&mut buffer), Err(OutOfSpace));
    assert_eq!(buffer.pos, 5 + 2 * WIDTH + 4);
    assert_eq!(&region[..5], b"http\0");
    assert_eq!(texts_at(&region, BASE + 5), vec!["www".to_string()]);
    assert_eq!(&region[5 + 2 * WIDTH + 4..], &[0xAA, 0xAA, 0xAA]);
}

#[test]
fn response_to_c_reports_each_outcome() {
    let mut region = vec![0xAAu8; 64];
    let (status, head) = Response::Success(http()).to_c(&mut region, BASE);
    assert_eq!(status, NssStatus::Success);
    assert_holds(&region, &head.unwrap(), &http());

    let mut small = vec![0xAAu8; 6];
    let (status, head) = Response::Success(http()).to_c(&mut small, BASE);
    assert_eq!(status, NssStatus::TryAgain);
    assert_eq!(head, None);

    let mut untouched = vec![0xAAu8; 64];
    let (status, head) = Response::<Service>::NotFound.to_c(&mut untouched, BASE);
    assert_eq!((status, head), (NssStatus::NotFound, None));
    let (status, head) = Response::<Service>::Unavail.to_c(&mut untouched, BASE);
    assert_eq!((status, head), (NssStatus::Unavail, None));
    let (status, head) = Response::<Service>::TryAgain.to_c(&mut untouched, BASE);
    assert_eq!((status, head), (NssStatus::TryAgain, None));
    assert_eq!(untouched, vec![0xAAu8; 64]);
}

#[test]
fn reply_gives_code_and_head() {
    let mut region = vec![0u8; 64];
    let (code, head) = reply(Response::Success(ftp()), &mut region, BASE);
    assert_eq!(code, 1);
    assert_holds(&region, &head.unwrap(), &ftp());
    assert_eq!(reply(Response::NotFound, &mut region, BASE), (0, None));
    assert_eq!(reply(Response::Unavail, &mut region, BASE), (-1, None));
    assert_eq!(reply(Response::TryAgain, &mut region, BASE), (-2, None));
    let mut small = vec![0u8; 3];
    assert_eq!(reply(Response::Success(ftp()), &mut small, BASE), (-2, None));
}

#[test]
fn convert_proto_tells_absent_text_and_garbage_apart() {
    assert!(matches!(convert_proto(None), Response::Success(None)));
    assert!(matches!(convert_proto(Some(b"tcp")), Response::Success(Some("tcp"))));
    assert!(matches!(convert_proto(Some(b"")), Response::Success(Some(""))));
    assert!(matches!(convert_proto(Some(&[0xC3, 0xA9])), Response::Success(Some("é"))));
    assert!(matches!(convert_proto(Some(&[b't', 0xFF, b'p'])), Response::NotFound));
    assert!(matches!(convert_proto(Some(&[0xC3])), Response::NotFound));
}

#[test]
fn convert_port_reads_network_byte_order() {
    assert_eq!(convert_port(i32::from(80u16.to_be())), 80);
    assert_eq!(convert_port(i32::from(u16::from_ne_bytes([0x12, 0x34]))), 0x1234);
    assert_eq!(convert_port(0), 0);
    assert_eq!(convert_port(0x7FFF_0000 | i32::from(21u16.to_be())), 21);
}

#[test]
fn begin_enumeration_opens_on_success_only() {
    let mut iter = Iterator::new();
    assert_eq!(begin_enumeration(&mut iter, Response::Success(vec![http(), ftp()])), 1);
    assert!(matches!(iter.next(), Response::Success(s) if s.name == "http"));
    assert_eq!(begin_enumeration(&mut iter, Response::Unavail), -1);
    assert!(matches!(iter.next(), Response::Success(s) if s.name == "ftp"));
    assert_eq!(begin_enumeration(&mut iter, Response::TryAgain), -2);
    assert_eq!(begin_enumeration(&mut iter, Response::NotFound), 0);
    assert!(matches!(iter.next(), Response::NotFound));
    assert_eq!(begin_enumeration(&mut iter, Response::Success(vec![ftp()])), 1);
    assert!(matches!(iter.next(), Response::Success(s) if s.name == "ftp"));
}

#[test]
fn enumeration_end_to_end() {
    let mut iter = Iterator::new();
    let mut region = vec![0u8; 256];
    assert_eq!(setservent::<TwoServices>(&mut iter), 1);

    let (code, head) = getservent_r(&mut iter, &mut region, BASE);
    assert_eq!(code, 1);
    let head = head.unwrap();
    assert_holds(&region, &head, &http());
    assert_eq!(head.s_port, 80u16.to_be() as i32);

    let (code, head) = getservent_r(&mut iter, &mut region, BASE);
    assert_eq!(code, 1);
    let head = head.unwrap();
    assert_holds(&region, &head, &ftp());
    assert_eq!(head.s_port, 21u16.to_be() as i32);

    assert_eq!(getservent_r(&mut iter, &mut region, BASE), (0, None));
    assert_eq!(getservent_r(&mut iter, &mut region, BASE), (0, None));

    assert_eq!(endservent(&mut iter), 1);
    assert_eq!(getservent_r(&mut iter, &mut region, BASE), (0, None));
    assert_eq!(setservent::<Down>(&mut iter), -1);
    assert_eq!(getservent_r(&mut iter, &mut region, BASE), (0, None));
}

#[test]
fn failed_begin_keeps_running_enumeration() {
    let mut iter = Iterator::new();
    let mut region = vec![0u8; 256];
    assert_eq!(setservent::<TwoServices>(&mut iter), 1);
    assert_eq!(getservent_r(&mut iter, &mut region, BASE).0, 1);
    assert_eq!(setservent::<Down>(&mut iter), -1);
    let (code, head) = getservent_r(&mut iter, &mut region, BASE);
    assert_eq!(code, 1);
    assert_holds(&region, &head.unwrap(), &ftp());
}

#[test]
fn region_one_byte_short_serves_same_entry_again() {
    let mut iter = Iterator::new();
    assert_eq!(setservent::<TwoServices>(&mut iter), 1);

    let mut small = vec![0u8; http_len() - 1];
    assert_eq!(getservent_r(&mut iter, &mut small, BASE), (-2, None));
    assert_eq!(getservent_r(&mut iter, &mut small, BASE), (-2, None));

    let mut fitting = vec![0u8; http_len()];
    let (code, head) = getservent_r(&mut iter, &mut fitting, BASE);
    assert_eq!(code, 1);
    assert_holds(&fitting, &head.unwrap(), &http());

    let mut small = vec![0u8; ftp_len() - 1];
    assert_eq!(getservent_r(&mut iter, &mut small, BASE), (-2, None));
    let mut fitting = vec![0u8; ftp_len()];
    let (code, head) = getservent_r(&mut iter, &mut fitting, BASE);
    assert_eq!(code, 1);
    assert_holds(&fitting, &head.unwrap(), &ftp());

    assert_eq!(getservent_r(&mut iter, &mut small, BASE), (0, None));
}

#[test]
fn exhausted_enumeration_leaves_region_alone() {
    let mut iter = Iterator::new();
    let mut region = vec![0xAAu8; 32];
    assert_eq!(getservent_r(&mut iter, &mut region, BASE), (0, None));
    assert_eq!(region, vec![0xAAu8; 32]);
}

#[test]
fn lookup_by_name() {
    let mut region = vec![0u8; 256];
    let (code, head) = getservbyname_r::<TwoServices>(b"http", None, &mut region, BASE);
    assert_eq!(code, 1);
    assert_holds(&region, &head.unwrap(), &http());
    let (code, head) = getservbyname_r::<TwoServices>(b"ftp", Some(b"tcp"), &mut region, BASE);
    assert_eq!(code, 1);
    assert_holds(&region, &head.unwrap(), &ftp());
    assert_eq!(getservbyname_r::<TwoServices>(b"http", Some(b"udp"), &mut region, BASE), (0, None));
    assert_eq!(getservbyname_r::<TwoServices>(b"gopher", None, &mut region, BASE), (0, None));
    assert_eq!(getservbyname_r::<Down>(b"http", None, &mut region, BASE), (-1, None));
    let mut small = vec![0u8; 8];
    assert_eq!(getservbyname_r::<TwoServices>(b"http", None, &mut small, BASE), (-2, None));
}

#[test]
fn lookup_by_name_with_invalid_bytes_finds_nothing() {
    let mut region = vec![0xAAu8; 64];
    let name = [b'h', b't', 0xFF, b'p'];
    assert_eq!(getservbyname_r::<TwoServices>(&name, None, &mut region, BASE), (0, None));
    assert_eq!(getservbyname_r::<Down>(&name, None, &mut region, BASE), (0, None));
    assert_eq!(getservbyname_r::<Down>(&name, Some(b"tcp"), &mut region, BASE), (0, None));
    let proto = [0xC0, 0x80];
    assert_eq!(getservbyname_r::<TwoServices>(b"http", Some(&proto), &mut region, BASE), (0, None));
    assert_eq!(getservbyname_r::<Down>(b"http", Some(&proto), &mut region, BASE), (0, None));
    assert_eq!(region, vec![0xAAu8; 64]);
}

#[test]
fn lookup_by_port() {
    let mut region = vec![0u8; 256];
    let port = i32::from(80u16.to_be());
    let (code, head) = getservbyport_r::<TwoServices>(port, None, &mut region, BASE);
    assert_eq!(code, 1);
    assert_holds(&region, &head.unwrap(), &http());
    let port = i32::from(21u16.to_be());
    let (code, head) = getservbyport_r::<TwoServices>(port, Some(b"tcp"), &mut region, BASE);
    assert_eq!(code, 1);
    assert_holds(&region, &head.unwrap(), &ftp());
    assert_eq!(getservbyport_r::<TwoServices>(port, Some(b"udp"), &mut region, BASE), (0, None));
    assert_eq!(getservbyport_r::<TwoServices>(i32::from(22u16.to_be()), None, &mut region, BASE), (0, None));
    assert_eq!(getservbyport_r::<Down>(port, None, &mut region, BASE), (-2, None));
}

#[test]
fn lookup_by_port_with_invalid_proto_finds_nothing() {
    let mut region = vec![0xAAu8; 64];
    let port = i32::from(80u16.to_be());
    let proto = [b't', b'c', 0xFE];
    assert_eq!(getservbyport_r::<TwoServices>(port, Some(&proto), &mut region, BASE), (0, None));
    assert_eq!(getservbyport_r::<Down>(port, Some(&proto), &mut region, BASE), (0, None));
    assert_eq!(region, vec![0xAAu8; 64]);
}
