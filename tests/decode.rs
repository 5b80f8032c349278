use listinfo::de::{Deserializer, FragmentDeserializer, SubEntryDeserializer};
use listinfo::parse;
use listinfo::scalar::{decode_bool, decode_bytes, decode_i32, decode_u32, decode_u64};
use listinfo::{EntryData, Error, Kind};

#[derive(Debug)]
struct Header {
    name: String,
}

#[derive(Debug)]
struct Rom {
    name: String,
    size: u64,
    crc: Vec<u8>,
    md5: Vec<u8>,
    sha1: Vec<u8>,
}

#[derive(Debug)]
struct Game {
    name: String,
    releaseyear: u32,
    developer: String,
    rom: Vec<Rom>,
}

#[derive(Debug)]
struct CaveStory {
    clrmamepro: Header,
    game: Vec<Game>,
}

fn decode_rom(data: &EntryData) -> Result<Rom, Error> {
    let mut map = data.map()?;
    let mut rom = Rom { name: String::new(), size: 0, crc: vec![], md5: vec![], sha1: vec![] };
    while let Some(key) = map.next_key() {
        let node = map.next_value()?;
        match key {
            "name" => rom.name = node.token().to_string(),
            "size" => rom.size = decode_u64(node.token())?,
            "crc" => rom.crc = decode_bytes(node.token())?,
            "md5" => rom.md5 = decode_bytes(node.token())?,
            "sha1" => rom.sha1 = decode_bytes(node.token())?,
            _ => {}
        }
    }
    Ok(rom)
}

fn decode_game(mut map: FragmentDeserializer) -> Result<Game, Error> {
    let mut game = Game { name: String::new(), releaseyear: 0, developer: String::new(), rom: vec![] };
    while let Some(key) = map.next_key() {
        let mut node = map.next_value()?;
        match key {
            "name" => game.name = node.scalar(Kind::Str)?.to_string(),
            "releaseyear" => game.releaseyear = decode_u32(node.scalar(Kind::U32)?)?,
            "developer" => game.developer = node.scalar(Kind::Str)?.to_string(),
            "rom" => {
                while let Some(data) = node.next_element() {
                    game.rom.push(decode_rom(data)?);
                }
            }
            _ => {}
        }
    }
    Ok(game)
}

fn decode_cave_story(text: &str) -> Result<CaveStory, Error> {
    let document = parse::parse_document(text)?;
    let mut map = Deserializer::from_document(&document);
    let mut header = None;
    let mut games = vec![];
    while let Some(key) = map.next_key() {
        let mut group = map.next_value()?;
        match key {
            "clrmamepro" => {
                let mut fields = group.map();
                let mut h = Header { name: String::new() };
                while let Some(field) = fields.next_key() {
                    let node = fields.next_value()?;
                    if field == "name" {
                        h.name = node.scalar(Kind::Str)?.to_string();
                    }
                }
                header = Some(h);
            }
            "game" => {
                while let Some(fragment) = group.next_element() {
                    games.push(decode_game(fragment)?);
                }
            }
            _ => {}
        }
    }
    Ok(CaveStory { clrmamepro: header.unwrap(), game: games })
}

#[test]
fn deserialize_cave_story() {
    const CAVE_STORY: &str = r#"clrmamepro (
                name "Cave Story"
                description "Cave Story"
                version 20161204
                comment "libretro | www.libretro.com"
            )
            game (
                name "Cave Story (En)"
                description "Cave Story (En)"
                developer "Studio Pixel"
                releaseyear "2004"
                rom ( 
                    name "Doukutsu.exe"
                    size 1478656 
                    crc c5a2a3f6 
                    md5 38695d3d69d7a0ada8178072dad4c58b 
                    sha1 bb2d0441e073da9c584f23c2ad8c7ab8aac293bf
                )
            )
        "#;

    let cave_story = decode_cave_story(CAVE_STORY).unwrap();
    assert_eq!(cave_story.clrmamepro.name, "Cave Story");
    assert_eq!(cave_story.game.first().unwrap().rom.first().unwrap().name, "Doukutsu.exe");
    assert_eq!(cave_story.game.first().unwrap().rom.first().unwrap().size, 1478656);
    assert_eq!(cave_story.game.first().unwrap().rom.first().unwrap().crc, &[0xc5, 0xa2, 0xa3, 0xf6]);
    assert_eq!(cave_story.game.first().unwrap().releaseyear, 2004);
    assert_eq!(cave_story.game.first().unwrap().developer, "Studio Pixel");
    assert_eq!(cave_story.game.first().unwrap().rom.first().unwrap().md5.len(), 16);
    assert_eq!(cave_story.game.first().unwrap().rom.first().unwrap().sha1.len(), 20);
}

#[test]
fn de_test_deserialize() {
    // A sub-entry that holds `hello` once, decoded into a struct with a
    // `hello: String` field.
    let (_, fragment) = parse::parse_fragment("t (\n e ( hello world )\n)").unwrap();
    let sub = match fragment.entry_unique("e") {
        Some(EntryData::SubEntry(sub)) => sub,
        _ => panic!(),
    };
    let mut map = SubEntryDeserializer::from_sub_entry(sub);
    assert_eq!(map.size_hint(), 1);
    let mut hello = None;
    while let Some(key) = map.next_key() {
        let node = map.next_value().unwrap();
        if key == "hello" {
            hello = Some(node.token().to_string());
        }
    }
    println!("{:?}", hello);
    assert_eq!(hello, Some(String::from("world")));
}

#[test]
fn de_base_test_deserialize() {
    // `hello` twice and `number` once, decoded into
    // `{ hello: Vec<String>, number: Option<i32>, test: Option<String> }`.
    let (_, fragment) =
        parse::parse_fragment("t (\n e ( hello world hello foo number 1 )\n)").unwrap();
    let sub = match fragment.entry_unique("e") {
        Some(EntryData::SubEntry(sub)) => sub,
        _ => panic!(),
    };
    let mut map = SubEntryDeserializer::from_sub_entry(sub);
    let mut hello: Vec<String> = vec![];
    let mut number: Option<i32> = None;
    let mut test: Option<String> = None;
    while let Some(key) = map.next_key() {
        let mut node = map.next_value().unwrap();
        match key {
            "hello" => {
                assert_eq!(node.size_hint(), 2);
                while let Some(v) = node.next_element() {
                    hello.push(v.to_string());
                }
            }
            "number" => number = Some(decode_i32(node.token()).unwrap()),
            "test" => test = Some(node.token().to_string()),
            _ => {}
        }
    }
    println!("{:?} {:?} {:?}", hello, number, test);
    assert_eq!(hello, vec![String::from("world"), String::from("foo")]);
    assert_eq!(number, Some(1));
    assert_eq!(test, None);
}

#[test]
fn bool_coercion() {
    assert_eq!(decode_bool("yes"), Ok(true));
    assert_eq!(decode_bool("no"), Ok(false));
    assert_eq!(decode_bool("true"), Ok(true));
    assert_eq!(decode_bool("false"), Ok(false));
    assert_eq!(
        decode_bool("maybe"),
        Err(Error::DeserializationTypeError(String::from("maybe"), Kind::Bool))
    );
    assert!(decode_bool("Yes").is_err());
    assert!(decode_bool("").is_err());
}

#[test]
fn hex_byte_decoding() {
    assert_eq!(decode_bytes("c5a2a3f6"), Ok(vec![0xc5, 0xa2, 0xa3, 0xf6]));
    assert_eq!(decode_bytes("C5A2"), Ok(vec![0xc5, 0xa2]));
    assert_eq!(decode_bytes(""), Ok(vec![]));
    assert_eq!(
        decode_bytes("zz"),
        Err(Error::DeserializationTypeError(String::from("zz"), Kind::Bytes))
    );
    assert!(decode_bytes("abc").is_err());
}

#[test]
fn value_before_key_is_a_protocol_error() {
    let (_, fragment) = parse::parse_fragment("game ( name x )").unwrap();
    let mut map = FragmentDeserializer::from_fragment(&fragment);
    assert!(matches!(map.next_value(), Err(Error::ValueBeforeKey)));
    assert_eq!(map.next_key(), Some("name"));
    assert!(map.next_value().is_ok());
    assert!(matches!(map.next_value(), Err(Error::ValueBeforeKey)));
    assert_eq!(map.next_key(), None);
}

#[test]
fn end_to_end_game() {
    let text = "game (\n    name \"Cave Story (En)\"\n    releaseyear 2004\n    rom ( name \"Doukutsu.exe\" size 1478656 crc c5a2a3f6 )\n)";
    let (key, fragment) = parse::parse_fragment(text).unwrap();
    assert_eq!(key, "game");
    let game = decode_game(FragmentDeserializer::from_fragment(&fragment)).unwrap();
    assert_eq!(game.name, "Cave Story (En)");
    assert_eq!(game.releaseyear, 2004);
    assert_eq!(game.rom.len(), 1);
    assert_eq!(game.rom[0].name, "Doukutsu.exe");
    assert_eq!(game.rom[0].size, 1478656);
    assert_eq!(game.rom[0].crc, vec![0xc5, 0xa2, 0xa3, 0xf6]);
}

#[test]
fn scalar_requested_from_sub_entry() {
    let (_, fragment) = parse::parse_fragment("game (\n rom ( name x )\n)").unwrap();
    let mut map = FragmentDeserializer::from_fragment(&fragment);
    map.next_key();
    let node = map.next_value().unwrap();
    assert_eq!(node.scalar(Kind::Str), Err(Error::InvalidType(listinfo::Found::Mapping, Kind::Str)));
    let mut sub = node.map().unwrap();
    assert_eq!(sub.next_key(), Some("name"));
    assert_eq!(sub.next_value().unwrap().reject_map(), Error::InvalidType(listinfo::Found::Scalar(String::from("x")), Kind::Mapping));
}

#[test]
fn map_requested_from_scalar() {
    let (_, fragment) = parse::parse_fragment("game ( name x )").unwrap();
    let data = fragment.entry_unique("name").unwrap();
    assert!(matches!(
        data.map(),
        Err(Error::InvalidType(listinfo::Found::Scalar(ref t), Kind::Mapping)) if t == "x"
    ));
    assert_eq!(
        data.reject(Kind::Sequence),
        Error::InvalidType(listinfo::Found::Scalar(String::from("x")), Kind::Sequence)
    );
}

#[test]
fn many_node_as_scalar_takes_the_first() {
    let (_, fragment) = parse::parse_fragment("game ( name a name b name c )").unwrap();
    let mut map = FragmentDeserializer::from_fragment(&fragment);
    assert_eq!(map.size_hint(), 1);
    map.next_key();
    let mut node = map.next_value().unwrap();
    assert_eq!(node.scalar(Kind::Str), Ok("a"));
    assert_eq!(node.size_hint(), 3);
    assert_eq!(node.next_element(), Some(&EntryData::Scalar("a")));
    assert_eq!(node.next_element(), Some(&EntryData::Scalar("b")));
    assert_eq!(node.next_element(), Some(&EntryData::Scalar("c")));
    assert_eq!(node.next_element(), None);
    assert_eq!(node.size_hint(), 0);
}

#[test]
fn document_groups_decode_in_order() {
    let doc = parse::parse_document("a ( n 1 )\nb ( n 2 )\na ( n 3 )").unwrap();
    let mut map = Deserializer::from_document(&doc);
    assert_eq!(map.size_hint(), 2);
    assert_eq!(map.next_key(), Some("a"));
    let mut group = map.next_value().unwrap();
    assert_eq!(group.size_hint(), 2);
    let mut values = vec![];
    while let Some(mut fragment) = group.next_element() {
        fragment.next_key();
        values.push(fragment.next_value().unwrap().scalar(Kind::U8).unwrap().to_string());
    }
    assert_eq!(values, vec!["1", "3"]);
    assert_eq!(map.next_key(), Some("b"));
    let group = map.next_value().unwrap();
    let mut first = group.map();
    assert_eq!(first.next_key(), Some("n"));
    assert_eq!(map.next_key(), None);
}
