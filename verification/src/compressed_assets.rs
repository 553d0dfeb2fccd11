//! The static, pre-compressed/pre-encoded test payloads, shared by the STOMP
//! static topics and the matching HTTP endpoints. Every payload was encoded
//! once, offline; nothing is ever compressed or encoded at request time.
use vstd::prelude::*;

use crate::text::{has_prefix, str_eq};

verus! {

/// Which of the five payloads.
#[derive(Debug, Clone, Copy, PartialEq, Eq, Structural)]
pub enum AssetKind {
    JsonGzip,
    JsonZstd,
    MsgpackPlain,
    MsgpackGzip,
    MsgpackZstd,
}

/// A payload's identity and how it is labelled on the wire.
#[derive(Debug, Clone, Copy)]
pub struct StaticAsset {
    pub kind: AssetKind,
    pub content_type: &'static str,
    pub content_encoding: Option<&'static str>,
}

/// The content type a payload is labelled with.
pub open spec fn asset_content_type(kind: AssetKind) -> Seq<char> {
    match kind {
        AssetKind::JsonGzip | AssetKind::JsonZstd => "application/json"@,
        _ => "application/msgpack"@,
    }
}

/// The content encoding a payload is labelled with, if any.
pub open spec fn asset_content_encoding(kind: AssetKind) -> Option<Seq<char>> {
    match kind {
        AssetKind::JsonGzip | AssetKind::MsgpackGzip => Some("gzip"@),
        AssetKind::JsonZstd | AssetKind::MsgpackZstd => Some("zstd"@),
        AssetKind::MsgpackPlain => None,
    }
}

/// `asset` is the description of its kind.
pub open spec fn describes(asset: StaticAsset) -> bool {
    &&& asset.content_type@ == asset_content_type(asset.kind)
    &&& match asset.content_encoding {
        Some(e) => asset_content_encoding(asset.kind) == Some(e@),
        None => asset_content_encoding(asset.kind) is None,
    }
}

/// The payload kind served on a STOMP destination.
pub open spec fn topic_asset(dest: Seq<char>) -> Option<AssetKind> {
    if dest == "/topic/compressed"@ {
        Some(AssetKind::JsonGzip)
    } else if dest == "/topic/compressed-zstd"@ {
        Some(AssetKind::JsonZstd)
    } else if dest == "/topic/compressed-mp"@ {
        Some(AssetKind::MsgpackPlain)
    } else if dest == "/topic/compressed-mp-gzip"@ {
        Some(AssetKind::MsgpackGzip)
    } else if dest == "/topic/compressed-mp-zstd"@ {
        Some(AssetKind::MsgpackZstd)
    } else {
        None
    }
}

/// The description of a payload kind.
pub fn asset(kind: AssetKind) -> (r: StaticAsset)
    ensures
        r.kind == kind,
        describes(r),
{
    match kind {
        AssetKind::JsonGzip => StaticAsset {
            kind,
            content_type: "application/json",
            content_encoding: Some("gzip"),
        },
        AssetKind::JsonZstd => StaticAsset {
            kind,
            content_type: "application/json",
            content_encoding: Some("zstd"),
        },
        AssetKind::MsgpackPlain => StaticAsset {
            kind,
            content_type: "application/msgpack",
            content_encoding: None,
        },
        AssetKind::MsgpackGzip => StaticAsset {
            kind,
            content_type: "application/msgpack",
            content_encoding: Some("gzip"),
        },
        AssetKind::MsgpackZstd => StaticAsset {
            kind,
            content_type: "application/msgpack",
            content_encoding: Some("zstd"),
        },
    }
}

/// Looks a payload up by its STOMP destination name (e.g. `/topic/compressed`).
pub fn lookup_by_topic(dest: &str) -> (r: Option<StaticAsset>)
    ensures
        match topic_asset(dest@) {
            Some(k) => r matches Some(a) && a.kind == k && describes(a),
            None => r is None,
        },
{
    if str_eq(dest, "/topic/compressed") {
        Some(asset(AssetKind::JsonGzip))
    } else if str_eq(dest, "/topic/compressed-zstd") {
        Some(asset(AssetKind::JsonZstd))
    } else if str_eq(dest, "/topic/compressed-mp") {
        Some(asset(AssetKind::MsgpackPlain))
    } else if str_eq(dest, "/topic/compressed-mp-gzip") {
        Some(asset(AssetKind::MsgpackGzip))
    } else if str_eq(dest, "/topic/compressed-mp-zstd") {
        Some(asset(AssetKind::MsgpackZstd))
    } else {
        None
    }
}

/// The bytes of the five payloads, loaded once when the server starts.
pub struct AssetStore {
    pub json_gzip: Vec<u8>,
    pub json_zstd: Vec<u8>,
    pub msgpack_plain: Vec<u8>,
    pub msgpack_gzip: Vec<u8>,
    pub msgpack_zstd: Vec<u8>,
}

impl AssetStore {
    /// The bytes of one payload.
    pub open spec fn bytes_of(&self, kind: AssetKind) -> Seq<u8> {
        match kind {
            AssetKind::JsonGzip => self.json_gzip@,
            AssetKind::JsonZstd => self.json_zstd@,
            AssetKind::MsgpackPlain => self.msgpack_plain@,
            AssetKind::MsgpackGzip => self.msgpack_gzip@,
            AssetKind::MsgpackZstd => self.msgpack_zstd@,
        }
    }

    /// The bytes of one payload.
    pub fn bytes(&self, kind: AssetKind) -> (r: &[u8])
        ensures
            r@ == self.bytes_of(kind),
    {
        match kind {
            AssetKind::JsonGzip => self.json_gzip.as_slice(),
            AssetKind::JsonZstd => self.json_zstd.as_slice(),
            AssetKind::MsgpackPlain => self.msgpack_plain.as_slice(),
            AssetKind::MsgpackGzip => self.msgpack_gzip.as_slice(),
            AssetKind::MsgpackZstd => self.msgpack_zstd.as_slice(),
        }
    }
}

/// `s` ends with `suffix`.
pub open spec fn has_suffix(s: Seq<char>, suffix: Seq<char>) -> bool {
    suffix.len() <= s.len() && s.skip(s.len() - suffix.len()) == suffix
}

/// A static topic's name says what it serves. Every static topic is
/// `/topic/compressed`, then `-mp` for MessagePack (JSON otherwise), then
/// `-gzip` or `-zstd` for the compression; the bare JSON topic is
/// gzip-compressed and the bare MessagePack topic is not compressed.
pub proof fn lemma_topic_name_describes_payload(dest: Seq<char>)
    requires
        topic_asset(dest) is Some,
    ensures
        has_prefix(dest, "/topic/compressed"@),
        asset_content_type(topic_asset(dest).unwrap()) == if has_prefix(dest, "/topic/compressed-mp"@) {
            "application/msgpack"@
        } else {
            "application/json"@
        },
        asset_content_encoding(topic_asset(dest).unwrap()) == if has_suffix(dest, "-zstd"@) {
            Some("zstd"@)
        } else if has_suffix(dest, "-gzip"@) || !has_prefix(dest, "/topic/compressed-mp"@) {
            Some("gzip"@)
        } else {
            None
        },
{
    reveal_strlit("/topic/compressed");
    reveal_strlit("/topic/compressed-zstd");
    reveal_strlit("/topic/compressed-mp");
    reveal_strlit("/topic/compressed-mp-gzip");
    reveal_strlit("/topic/compressed-mp-zstd");
    reveal_strlit("-zstd");
    reveal_strlit("-gzip");
    assert("/topic/compressed"@.len() == 17);
    assert("/topic/compressed-zstd"@.len() == 22);
    assert("/topic/compressed-mp"@.len() == 20);
    assert("/topic/compressed-mp-gzip"@.len() == 25);
    assert("/topic/compressed-mp-zstd"@.len() == 25);
    let p = "/topic/compressed"@;
    let pm = "/topic/compressed-mp"@;
    let z = "-zstd"@;
    let g = "-gzip"@;
    assert(p.len() == 17);
    assert(pm.len() == 20);
    if dest == "/topic/compressed"@ {
        assert(dest.take(17) =~= p);
        assert(!has_suffix(dest, z)) by {
            assert(dest.skip(12)[0] != z[0]);
        }
        assert(!has_suffix(dest, g)) by {
            assert(dest.skip(12)[0] != g[0]);
        }
    } else if dest == "/topic/compressed-zstd"@ {
        assert(dest.take(17) =~= p);
        assert(dest.skip(17) =~= z);
        assert(!has_prefix(dest, pm)) by {
            assert(dest.take(20)[18] != pm[18]);
        }
    } else if dest == "/topic/compressed-mp"@ {
        assert(dest.take(17) =~= p);
        assert(dest.take(20) =~= pm);
        assert(!has_suffix(dest, z)) by {
            assert(dest.skip(15)[0] != z[0]);
        }
        assert(!has_suffix(dest, g)) by {
            assert(dest.skip(15)[0] != g[0]);
        }
    } else if dest == "/topic/compressed-mp-gzip"@ {
        assert(dest.take(17) =~= p);
        assert(dest.take(20) =~= pm);
        assert(dest.skip(20) =~= g);
        assert(!has_suffix(dest, z)) by {
            assert(dest.skip(20)[1] != z[1]);
        }
    } else {
        assert(dest == "/topic/compressed-mp-zstd"@);
        assert(dest.take(17) =~= p);
        assert(dest.take(20) =~= pm);
        assert(dest.skip(20) =~= z);
    }
}

/// The static topics serve five different payloads: no two topics serve the
/// same one, and every payload has its topic.
pub proof fn lemma_topics_serve_distinct_payloads(d1: Seq<char>, d2: Seq<char>, kind: AssetKind)
    ensures
        topic_asset(d1) is Some && topic_asset(d1) == topic_asset(d2) ==> d1 == d2,
        exists|d: Seq<char>| #[trigger] topic_asset(d) == Some(kind),
{
    reveal_strlit("/topic/compressed");
    reveal_strlit("/topic/compressed-zstd");
    reveal_strlit("/topic/compressed-mp");
    reveal_strlit("/topic/compressed-mp-gzip");
    reveal_strlit("/topic/compressed-mp-zstd");
    reveal_strlit("-zstd");
    reveal_strlit("-gzip");
    assert("/topic/compressed"@.len() == 17);
    assert("/topic/compressed-zstd"@.len() == 22);
    assert("/topic/compressed-mp"@.len() == 20);
    assert("/topic/compressed-mp-gzip"@.len() == 25);
    assert("/topic/compressed-mp-zstd"@.len() == 25);
    assert("/topic/compressed-zstd"@[18] != "/topic/compressed-mp"@[18]);
    assert("/topic/compressed-mp-gzip"@[21] != "/topic/compressed-mp-zstd"@[21]);
    match kind {
        AssetKind::JsonGzip => {
            assert(topic_asset("/topic/compressed"@) == Some(kind));
        },
        AssetKind::JsonZstd => {
            assert(topic_asset("/topic/compressed-zstd"@) == Some(kind));
        },
        AssetKind::MsgpackPlain => {
            assert(topic_asset("/topic/compressed-mp"@) == Some(kind));
        },
        AssetKind::MsgpackGzip => {
            assert(topic_asset("/topic/compressed-mp-gzip"@) == Some(kind));
        },
        AssetKind::MsgpackZstd => {
            assert(topic_asset("/topic/compressed-mp-zstd"@) == Some(kind));
        },
    }
}

} // verus!
