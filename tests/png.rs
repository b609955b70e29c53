use pngme::chunk::Chunk;
use pngme::chunk_type::ChunkType;
use pngme::commands::{run, Cli, Commands, Outcome};
use pngme::error::PngError;
use pngme::png::{Png, SIGNATURE};

fn chunk(code: &str, data: &str) -> Chunk {
    Chunk::new(ChunkType::from_string(code).unwrap(), data.as_bytes().to_vec())
}

fn minimal_png() -> Vec<u8> {
    let mut bytes = SIGNATURE.to_vec();
    bytes.extend_from_slice(&[0, 0, 0, 0, 73, 69, 78, 68, 0xAE, 0x42, 0x60, 0x82]);
    bytes
}

fn three_chunk_png() -> Vec<u8> {
    let png = Png::from_chunks(vec![
        chunk("FrSt", "I am the first chunk"),
        chunk("miDl", "I am another chunk"),
        chunk("LASt", "I am the last chunk"),
    ]);
    png.serialize()
}

#[test]
fn parse_serialize_round_trip() {
    for buf in [minimal_png(), three_chunk_png(), SIGNATURE.to_vec()] {
        let png = Png::parse(&buf).unwrap();
        assert_eq!(png.serialize(), buf);
    }
}

#[test]
fn parse_keeps_file_order() {
    let png = Png::parse(&three_chunk_png()).unwrap();
    let codes: Vec<String> = png.chunks().iter().map(|c| c.chunk_type().to_string()).collect();
    assert_eq!(codes, vec!["FrSt", "miDl", "LASt"]);
}

#[test]
fn bad_signature() {
    let mut buf = minimal_png();
    buf[1] = b'Q';
    assert_eq!(Png::parse(&buf).unwrap_err(), PngError::BadSignature);
    assert_eq!(Png::parse(&SIGNATURE[..7]).unwrap_err(), PngError::BadSignature);
    assert_eq!(Png::parse(&[]).unwrap_err(), PngError::BadSignature);
}

#[test]
fn truncated_file() {
    let buf = three_chunk_png();
    assert_eq!(Png::parse(&buf[..buf.len() - 1]).unwrap_err(), PngError::Truncated);
    assert_eq!(Png::parse(&buf[..8 + 5]).unwrap_err(), PngError::Truncated);
}

#[test]
fn corrupt_chunk_in_file() {
    let mut buf = three_chunk_png();
    buf[8 + 8] ^= 0x01;
    assert!(matches!(Png::parse(&buf).unwrap_err(), PngError::CrcMismatch { .. }));
}

#[test]
fn append_find_remove() {
    let mut png = Png::parse(&minimal_png()).unwrap();
    png.append(chunk("ruSt", "hello"));
    let found = png.find_by_type("ruSt").unwrap();
    assert_eq!(found.data_as_string().unwrap(), "hello");

    let removed = png.remove_by_type("ruSt").unwrap();
    assert_eq!(removed.data_as_string().unwrap(), "hello");
    assert!(png.find_by_type("ruSt").is_none());
    assert_eq!(png.chunks().len(), 1);
    assert_eq!(png.serialize(), minimal_png());

    assert_eq!(png.remove_by_type("zzZz").unwrap_err(), PngError::NotFound);
    assert_eq!(png.chunks().len(), 1);
}

#[test]
fn first_match_wins() {
    let mut png = Png::from_chunks(vec![
        chunk("ruSt", "one"),
        chunk("IEND", ""),
        chunk("ruSt", "two"),
    ]);
    assert_eq!(png.find_by_type("ruSt").unwrap().data_as_string().unwrap(), "one");
    assert_eq!(png.remove_by_type("ruSt").unwrap().data_as_string().unwrap(), "one");
    let left: Vec<String> = png.chunks().iter().map(|c| c.data_as_string().unwrap()).collect();
    assert_eq!(left, vec!["", "two"]);
    assert!(png.find_by_type("ruS").is_none());
    assert!(png.find_by_type("ruStt").is_none());
}

#[test]
fn end_to_end_scenario() {
    let png = Png::parse(&minimal_png()).unwrap();
    assert_eq!(png.chunks().len(), 1);
    assert_eq!(png.chunks()[0].chunk_type().to_string(), "IEND");

    let mut png = png;
    png.append(chunk("ruSt", "secret"));
    let bytes = png.serialize();
    assert_eq!(bytes.len(), 8 + 12 + 12 + 6);

    let again = Png::parse(&bytes).unwrap();
    assert_eq!(again.chunks().len(), 2);
    assert_eq!(again.find_by_type("ruSt").unwrap().data_as_string().unwrap(), "secret");
}

fn cli(command: Commands) -> Cli {
    Cli { command }
}

#[test]
fn run_encode_decode_remove() {
    let file = minimal_png();
    let encode = cli(Commands::Encode {
        file_path: "in.png".to_string(),
        chunk_type: "ruSt".to_string(),
        message: "secret".to_string(),
        output_file: Some("out.png".to_string()),
    });
    let written = match run(&encode, &file).unwrap() {
        Outcome::Write { path, contents } => {
            assert_eq!(path, "out.png");
            contents
        }
        other => panic!("{:?}", other),
    };
    assert_eq!(written.len(), file.len() + 18);

    let decode = cli(Commands::Decode { file_path: "out.png".to_string(), chunk_type: "ruSt".to_string() });
    match run(&decode, &written).unwrap() {
        Outcome::Message(Some(m)) => assert_eq!(m, "secret"),
        other => panic!("{:?}", other),
    }
    let decode_none = cli(Commands::Decode { file_path: "in.png".to_string(), chunk_type: "ruSt".to_string() });
    assert!(matches!(run(&decode_none, &file).unwrap(), Outcome::Message(None)));

    let remove = cli(Commands::Remove { file_path: "out.png".to_string(), chunk_type: "ruSt".to_string() });
    match run(&remove, &written).unwrap() {
        Outcome::Write { path, contents } => {
            assert_eq!(path, "out.png");
            assert_eq!(contents, file);
        }
        other => panic!("{:?}", other),
    }
    assert_eq!(run(&remove, &file).unwrap_err(), PngError::NotFound);
}

#[test]
fn run_errors_and_print() {
    let file = minimal_png();
    let bad_code = cli(Commands::Encode {
        file_path: "in.png".to_string(),
        chunk_type: "ru1t".to_string(),
        message: "x".to_string(),
        output_file: None,
    });
    assert_eq!(run(&bad_code, &file).unwrap_err(), PngError::InvalidTypeCode);
    let decode = cli(Commands::Decode { file_path: "in.png".to_string(), chunk_type: "IEND".to_string() });
    assert_eq!(run(&decode, &file[..10]).unwrap_err(), PngError::Truncated);
    assert_eq!(run(&decode, b"not a png").unwrap_err(), PngError::BadSignature);
    let print = cli(Commands::Print { file_path: "in.png".to_string() });
    assert!(matches!(run(&print, &[]).unwrap(), Outcome::Nothing));

    let encode_in_place = cli(Commands::Encode {
        file_path: "in.png".to_string(),
        chunk_type: "ruSt".to_string(),
        message: "x".to_string(),
        output_file: None,
    });
    match run(&encode_in_place, &file).unwrap() {
        Outcome::Write { path, .. } => assert_eq!(path, "in.png"),
        other => panic!("{:?}", other),
    }
}

#[test]
fn decode_invalid_utf8_message() {
    let mut png = Png::parse(&minimal_png()).unwrap();
    png.append(Chunk::new(ChunkType::from_string("ruSt").unwrap(), vec![0xC3, 0x28]));
    let file = png.serialize();
    let decode = cli(Commands::Decode { file_path: "in.png".to_string(), chunk_type: "ruSt".to_string() });
    assert_eq!(run(&decode, &file).unwrap_err(), PngError::Utf8DecodeError);
}
