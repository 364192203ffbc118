//! The CDN client: collections, maps, and the memoized second read.

use dgg_chat::cache::JsonCache;
use dgg_chat::cdn::{
    CdnClient, decode_emote_list, decode_flair_list, emotes_to_map, image_needs_bytes,
    set_image_bytes,
};
use dgg_chat::emote::{decode_emote, encode_emote};
use dgg_chat::json::JsonValue;

fn emote_body() -> String {
    let one = "{\"prefix\":\"KEKW\",\"twitch\":false,\"theme\":1,\"minimumSubTier\":0,\"image\":[{\"url\":\"https://cdn.example.test/e/kekw.png\",\"name\":\"KEKW\",\"mime\":\"image/png\",\"height\":32,\"width\":32}]}";
    let two = "{\"prefix\":\"OMEGALUL\",\"creator\":\"carver\",\"twitch\":true,\"theme\":2,\"minimumSubTier\":1,\"image\":[{\"url\":\"https://cdn.example.test/e/omega.png\",\"name\":\"OMEGALUL\",\"mime\":\"image/png\",\"height\":32,\"width\":32}]}";
    let three = "{\"prefix\":\"PepeHands\",\"creator\":null,\"twitch\":false,\"theme\":1,\"minimumSubTier\":0,\"image\":[{\"url\":\"https://cdn.example.test/e/pepe.png\",\"name\":\"PepeHands\",\"mime\":\"image/png\",\"height\":32,\"width\":32}]}";
    format!("[{},{},{}]", one, two, three)
}

#[test]
fn three_records_resolve_and_memoize() {
    // First resolution: the served collection is decoded, its images are
    // fetched, the map is built and persisted.
    let mut emotes = decode_emote_list(&emote_body()).unwrap();
    assert_eq!(emotes.len(), 3);
    for e in emotes.iter_mut() {
        assert!(image_needs_bytes(&e.image[0]));
        set_image_bytes(&mut e.image[0], vec![0x89, 0x50, 0x4E, 0x47]);
        assert!(!image_needs_bytes(&e.image[0]));
    }
    let map = emotes_to_map(emotes);
    assert_eq!(map.len(), 3);
    let keys: Vec<&str> = map.iter().map(|p| p.0.as_str()).collect();
    assert_eq!(keys, vec!["KEKW", "OMEGALUL", "PepeHands"]);
    for (_, e) in &map {
        assert!(!e.image[0].bytes.as_ref().unwrap().is_empty());
    }

    let mut cache = JsonCache::new();
    let stored = JsonValue::Obj(
        map.iter().map(|(k, e)| (k.clone(), encode_emote(e))).collect(),
    );
    cache.set("emotes".to_string(), stored);
    let persisted = cache.save_text();

    // Second resolution, network disabled: the reloaded cache serves the
    // identical map.
    let mut reloaded = JsonCache::load_text(&persisted).unwrap();
    let hit = reloaded.get("emotes".to_string()).unwrap();
    let fields = match hit {
        JsonValue::Obj(fields) => fields,
        other => panic!("not an object: {:?}", other),
    };
    assert_eq!(fields.len(), 3);
    for (i, (key, value)) in fields.iter().enumerate() {
        let back = decode_emote(value).unwrap();
        assert_eq!(*key, map[i].0);
        assert_eq!(back, map[i].1);
    }
}

#[test]
fn records_with_unknown_fields_still_read() {
    // Forward compatibility: fields this client does not know are ignored.
    let body = "[{\"prefix\":\"KEKW\",\"twitch\":false,\"theme\":1,\"minimumSubTier\":0,\"styles\":{\"glow\":true},\"image\":[{\"url\":\"https://cdn.example.test/e/kekw.png\",\"name\":\"KEKW\",\"mime\":\"image/png\",\"height\":32,\"width\":32,\"dpi\":2}]}]";
    let emotes = decode_emote_list(body).unwrap();
    assert_eq!(emotes.len(), 1);
    assert_eq!(emotes[0].prefix, "KEKW");
    assert_eq!(emotes[0].image[0].height, 32);
}

#[test]
fn endpoints_resolve_against_the_base() {
    let client = CdnClient::new("https://cdn.example.test/base/".to_string(), None);
    assert_eq!(client.emotes_endpoint().unwrap(), "https://cdn.example.test/base/emotes/emotes.json");
    assert_eq!(client.flairs_endpoint().unwrap(), "https://cdn.example.test/base/flairs/flairs.json");
    let bad = CdnClient::new("not a url".to_string(), None);
    assert!(bad.emotes_endpoint().is_err());
}

#[test]
fn test_flair_deserialization() {
    let one = "{\"label\":\"Subscriber\",\"name\":\"subscriber\",\"description\":null,\"hidden\":false,\"priority\":100,\"color\":\"#1e91c8\",\"rainbowColor\":false,\"image\":[{\"url\":\"https://cdn.example.test/f/sub.png\",\"name\":\"sub\",\"mime\":\"image/png\",\"height\":16,\"width\":16}]}";
    let two = "{\"label\":\"Broadcaster\",\"name\":\"flair12\",\"hidden\":false,\"priority\":1,\"color\":\"\",\"rainbowColor\":true,\"image\":[]}";
    let body = format!("[{},{}]", one, two);
    let flairs = decode_flair_list(&body).unwrap();
    assert_eq!(flairs.len(), 2);
    assert_eq!(flairs[0].name, "subscriber");
    let c = flairs[0].color.unwrap();
    assert_eq!((c.r, c.g, c.b), (0x1e, 0x91, 0xc8));
    assert_eq!(flairs[1].color, None);
    assert!(flairs[1].rainbow_color);
    assert!(decode_flair_list("[{\"label\":1}]").is_err());
    // An upper-case color and a field this client does not know are fine.
    let extended = "[{\"label\":\"VIP\",\"name\":\"vip\",\"color\":\"#FFD700\",\"hidden\":false,\"priority\":3,\"rainbowColor\":false,\"image\":[],\"newServerField\":7}]";
    let vip = decode_flair_list(extended).unwrap();
    let gold = vip[0].color.unwrap();
    assert_eq!((gold.r, gold.g, gold.b), (0xFF, 0xD7, 0x00));
}
