//! UnixFS interpretation of block content: a protobuf node wrapping child
//! links and a small metadata message (type tag, file size, chunk sizes).
//! A malformed encoding never propagates an error; it classifies the
//! content as unrecognized, opaque bytes.

use vstd::prelude::*;

use crate::varint::parse_varint;
use crate::varint::read_varint;
use vstd::slice::slice_subrange;
use vstd::slice::slice_to_vec;

verus! {

/// The model of one child link: raw CID bytes, raw name bytes and the
/// cumulative target size, reported as-is and never followed.
pub struct SpecLink {
    pub hash: Seq<u8>,
    pub name: Seq<u8>,
    pub tsize: Option<u64>,
}

/// The model of a recognized UnixFS node.
pub struct SpecNode {
    pub node_type: u64,
    pub filesize: Option<u64>,
    pub blocksizes: Seq<u64>,
    pub links: Seq<SpecLink>,
}

/// One child link of a decoded node.
#[derive(Debug)]
pub struct UnixFsLink {
    pub hash: Vec<u8>,
    pub name: Vec<u8>,
    pub tsize: Option<u64>,
}

impl View for UnixFsLink {
    type V = SpecLink;

    open spec fn view(&self) -> SpecLink {
        SpecLink { hash: self.hash@, name: self.name@, tsize: self.tsize }
    }
}

/// A decoded UnixFS node: the type tag (0 raw, 1 directory, 2 file,
/// 3 metadata, 4 symlink, 5 HAMT shard), the declared file size, the
/// chunk sizes and the child links.
#[derive(Debug)]
pub struct UnixFsNode {
    pub node_type: u64,
    pub filesize: Option<u64>,
    pub blocksizes: Vec<u64>,
    pub links: Vec<UnixFsLink>,
}

/// The views of a sequence of links.
pub open spec fn links_views(ls: Seq<UnixFsLink>) -> Seq<SpecLink> {
    Seq::new(ls.len(), |i: int| ls[i]@)
}

impl View for UnixFsNode {
    type V = SpecNode;

    open spec fn view(&self) -> SpecNode {
        SpecNode {
            node_type: self.node_type,
            filesize: self.filesize,
            blocksizes: self.blocksizes@,
            links: links_views(self.links@),
        }
    }
}

/// Accumulator while walking the fields of a link message.
pub open spec fn empty_link() -> SpecLink {
    SpecLink { hash: Seq::empty(), name: Seq::empty(), tsize: None }
}

/// Walks the protobuf fields of a link message: field 1 (bytes) is the
/// hash, field 2 (bytes) the name, field 3 (varint) the target size;
/// unknown fields are skipped by wire type.
pub open spec fn link_fields(s: Seq<u8>, pos: int, acc: SpecLink) -> Option<SpecLink>
    decreases s.len() - pos,
{
    if pos < 0 {
        None
    } else if pos >= s.len() {
        Some(acc)
    } else {
        match parse_varint(s, pos) {
            None => None,
            Some((key, p1)) => {
                if !(pos < p1 <= s.len()) {
                    None
                } else {
                    let field = key / 8;
                    let wire = key % 8;
                    if wire == 0 {
                        match parse_varint(s, p1) {
                            None => None,
                            Some((v, p2)) => {
                                if !(p1 < p2 <= s.len()) {
                                    None
                                } else if field == 3 {
                                    link_fields(s, p2, SpecLink { tsize: Some(v), ..acc })
                                } else {
                                    link_fields(s, p2, acc)
                                }
                            },
                        }
                    } else if wire == 1 {
                        if p1 + 8 <= s.len() {
                            link_fields(s, p1 + 8, acc)
                        } else {
                            None
                        }
                    } else if wire == 5 {
                        if p1 + 4 <= s.len() {
                            link_fields(s, p1 + 4, acc)
                        } else {
                            None
                        }
                    } else if wire == 2 {
                        match parse_varint(s, p1) {
                            None => None,
                            Some((len, p2)) => {
                                if !(p1 < p2 <= s.len()) {
                                    None
                                } else if p2 + len > s.len() {
                                    None
                                } else {
                                    let bytes = s.subrange(p2, p2 + len);
                                    if field == 1 {
                                        link_fields(s, p2 + len, SpecLink { hash: bytes, ..acc })
                                    } else if field == 2 {
                                        link_fields(s, p2 + len, SpecLink { name: bytes, ..acc })
                                    } else {
                                        link_fields(s, p2 + len, acc)
                                    }
                                }
                            },
                        }
                    } else {
                        None
                    }
                }
            },
        }
    }
}

/// A whole link message.
pub open spec fn link_of(s: Seq<u8>) -> Option<SpecLink> {
    link_fields(s, 0, empty_link())
}

/// Accumulator while walking the outer node message.
pub struct SpecNodeAcc {
    pub data: Option<Seq<u8>>,
    pub links: Seq<SpecLink>,
}

/// Walks the protobuf fields of the outer node message: field 1 (bytes)
/// is the embedded metadata message, each field 2 (bytes) one child link;
/// unknown fields are skipped by wire type. A malformed link fails the
/// whole walk.
pub open spec fn pb_fields(s: Seq<u8>, pos: int, acc: SpecNodeAcc) -> Option<SpecNodeAcc>
    decreases s.len() - pos,
{
    if pos < 0 {
        None
    } else if pos >= s.len() {
        Some(acc)
    } else {
        match parse_varint(s, pos) {
            None => None,
            Some((key, p1)) => {
                if !(pos < p1 <= s.len()) {
                    None
                } else {
                    let field = key / 8;
                    let wire = key % 8;
                    if wire == 0 {
                        match parse_varint(s, p1) {
                            None => None,
                            Some((v, p2)) => {
                                if !(p1 < p2 <= s.len()) {
                                    None
                                } else {
                                    pb_fields(s, p2, acc)
                                }
                            },
                        }
                    } else if wire == 1 {
                        if p1 + 8 <= s.len() {
                            pb_fields(s, p1 + 8, acc)
                        } else {
                            None
                        }
                    } else if wire == 5 {
                        if p1 + 4 <= s.len() {
                            pb_fields(s, p1 + 4, acc)
                        } else {
                            None
                        }
                    } else if wire == 2 {
                        match parse_varint(s, p1) {
                            None => None,
                            Some((len, p2)) => {
                                if !(p1 < p2 <= s.len()) {
                                    None
                                } else if p2 + len > s.len() {
                                    None
                                } else {
                                    let bytes = s.subrange(p2, p2 + len);
                                    if field == 1 {
                                        pb_fields(
                                            s,
                                            p2 + len,
                                            SpecNodeAcc { data: Some(bytes), ..acc },
                                        )
                                    } else if field == 2 {
                                        match link_of(bytes) {
                                            None => None,
                                            Some(l) => pb_fields(
                                                s,
                                                p2 + len,
                                                SpecNodeAcc { links: acc.links + seq![l], ..acc },
                                            ),
                                        }
                                    } else {
                                        pb_fields(s, p2 + len, acc)
                                    }
                                }
                            },
                        }
                    } else {
                        None
                    }
                }
            },
        }
    }
}

/// Accumulator while walking the metadata message.
pub struct SpecDataAcc {
    pub node_type: Option<u64>,
    pub filesize: Option<u64>,
    pub blocksizes: Seq<u64>,
}

/// Walks the protobuf fields of the metadata message: field 1 (varint) is
/// the type tag, field 3 (varint) the file size, each field 4 (varint)
/// one chunk size; unknown fields are skipped by wire type.
pub open spec fn data_fields(s: Seq<u8>, pos: int, acc: SpecDataAcc) -> Option<SpecDataAcc>
    decreases s.len() - pos,
{
    if pos < 0 {
        None
    } else if pos >= s.len() {
        Some(acc)
    } else {
        match parse_varint(s, pos) {
            None => None,
            Some((key, p1)) => {
                if !(pos < p1 <= s.len()) {
                    None
                } else {
                    let field = key / 8;
                    let wire = key % 8;
                    if wire == 0 {
                        match parse_varint(s, p1) {
                            None => None,
                            Some((v, p2)) => {
                                if !(p1 < p2 <= s.len()) {
                                    None
                                } else if field == 1 {
                                    data_fields(s, p2, SpecDataAcc { node_type: Some(v), ..acc })
                                } else if field == 3 {
                                    data_fields(s, p2, SpecDataAcc { filesize: Some(v), ..acc })
                                } else if field == 4 {
                                    data_fields(
                                        s,
                                        p2,
                                        SpecDataAcc { blocksizes: acc.blocksizes + seq![v], ..acc },
                                    )
                                } else {
                                    data_fields(s, p2, acc)
                                }
                            },
                        }
                    } else if wire == 1 {
                        if p1 + 8 <= s.len() {
                            data_fields(s, p1 + 8, acc)
                        } else {
                            None
                        }
                    } else if wire == 5 {
                        if p1 + 4 <= s.len() {
                            data_fields(s, p1 + 4, acc)
                        } else {
                            None
                        }
                    } else if wire == 2 {
                        match parse_varint(s, p1) {
                            None => None,
                            Some((len, p2)) => {
                                if !(p1 < p2 <= s.len()) {
                                    None
                                } else if p2 + len > s.len() {
                                    None
                                } else {
                                    data_fields(s, p2 + len, acc)
                                }
                            },
                        }
                    } else {
                        None
                    }
                }
            },
        }
    }
}

/// The UnixFS node described by block content: the outer message must
/// parse, carry a metadata message whose type tag is present and within
/// the known range. Anything else is unrecognized.
pub open spec fn unixfs_node(content: Seq<u8>) -> Option<SpecNode> {
    match pb_fields(content, 0, SpecNodeAcc { data: None, links: Seq::empty() }) {
        None => None,
        Some(acc) => match acc.data {
            None => None,
            Some(d) => match data_fields(
                d,
                0,
                SpecDataAcc { node_type: None, filesize: None, blocksizes: Seq::empty() },
            ) {
                None => None,
                Some(da) => match da.node_type {
                    None => None,
                    Some(t) => {
                        if t > 5 {
                            None
                        } else {
                            Some(
                                SpecNode {
                                    node_type: t,
                                    filesize: da.filesize,
                                    blocksizes: da.blocksizes,
                                    links: acc.links,
                                },
                            )
                        }
                    },
                },
            },
        },
    }
}

/// Whether the content is a file node with no chunk list and no child
/// links: raw leaf data rather than structured metadata.
pub open spec fn is_file_leaf(content: Seq<u8>) -> bool {
    match unixfs_node(content) {
        Some(n) => n.node_type == 2 && n.blocksizes.len() == 0 && n.links.len() == 0,
        None => false,
    }
}

/// Decodes one link message.
fn decode_link(data: &[u8]) -> (r: Option<UnixFsLink>)
    ensures
        match r {
            Some(l) => link_of(data@) == Some(l@),
            None => link_of(data@) is None,
        },
{
    let mut pos: usize = 0;
    let mut hash: Vec<u8> = Vec::new();
    let mut name: Vec<u8> = Vec::new();
    let mut tsize: Option<u64> = None;
    while pos < data.len()
        invariant
            pos <= data@.len(),
            link_of(data@) == link_fields(
                data@,
                pos as int,
                SpecLink { hash: hash@, name: name@, tsize },
            ),
        decreases data@.len() - pos,
    {
        let key = match read_varint(data, pos) {
            Ok(t) => t,
            Err(_) => {
                return None;
            },
        };
        let field = key.0 / 8;
        let wire = key.0 % 8;
        let p1 = key.1;
        if wire == 0 {
            let v = match read_varint(data, p1) {
                Ok(t) => t,
                Err(_) => {
                    return None;
                },
            };
            if field == 3 {
                tsize = Some(v.0);
            }
            pos = v.1;
        } else if wire == 1 {
            if 8 > data.len() - p1 {
                return None;
            }
            pos = p1 + 8;
        } else if wire == 5 {
            if 4 > data.len() - p1 {
                return None;
            }
            pos = p1 + 4;
        } else if wire == 2 {
            let l = match read_varint(data, p1) {
                Ok(t) => t,
                Err(_) => {
                    return None;
                },
            };
            if l.0 > (data.len() - l.1) as u64 {
                return None;
            }
            let a = l.1;
            let b = l.1 + l.0 as usize;
            if field == 1 {
                hash = slice_to_vec(slice_subrange(data, a, b));
            } else if field == 2 {
                name = slice_to_vec(slice_subrange(data, a, b));
            }
            pos = b;
        } else {
            return None;
        }
    }
    Some(UnixFsLink { hash, name, tsize })
}

/// Decodes the metadata message.
fn decode_data_message(data: &[u8]) -> (r: Option<(Option<u64>, Option<u64>, Vec<u64>)>)
    ensures
        match r {
            Some((node_type, filesize, blocksizes)) => data_fields(
                data@,
                0,
                SpecDataAcc { node_type: None, filesize: None, blocksizes: Seq::empty() },
            ) == Some(
                SpecDataAcc { node_type, filesize, blocksizes: blocksizes@ },
            ),
            None => data_fields(
                data@,
                0,
                SpecDataAcc { node_type: None, filesize: None, blocksizes: Seq::empty() },
            ) is None,
        },
{
    let mut pos: usize = 0;
    let mut node_type: Option<u64> = None;
    let mut filesize: Option<u64> = None;
    let mut blocksizes: Vec<u64> = Vec::new();
    while pos < data.len()
        invariant
            pos <= data@.len(),
            data_fields(
                data@,
                0,
                SpecDataAcc { node_type: None, filesize: None, blocksizes: Seq::empty() },
            ) == data_fields(
                data@,
                pos as int,
                SpecDataAcc { node_type, filesize, blocksizes: blocksizes@ },
            ),
        decreases data@.len() - pos,
    {
        let key = match read_varint(data, pos) {
            Ok(t) => t,
            Err(_) => {
                return None;
            },
        };
        let field = key.0 / 8;
        let wire = key.0 % 8;
        let p1 = key.1;
        if wire == 0 {
            let v = match read_varint(data, p1) {
                Ok(t) => t,
                Err(_) => {
                    return None;
                },
            };
            if field == 1 {
                node_type = Some(v.0);
            } else if field == 3 {
                filesize = Some(v.0);
            } else if field == 4 {
                let ghost prev = blocksizes@;
                blocksizes.push(v.0);
                proof {
                    assert(blocksizes@ =~= prev + seq![v.0]);
                }
            }
            pos = v.1;
        } else if wire == 1 {
            if 8 > data.len() - p1 {
                return None;
            }
            pos = p1 + 8;
        } else if wire == 5 {
            if 4 > data.len() - p1 {
                return None;
            }
            pos = p1 + 4;
        } else if wire == 2 {
            let l = match read_varint(data, p1) {
                Ok(t) => t,
                Err(_) => {
                    return None;
                },
            };
            if l.0 > (data.len() - l.1) as u64 {
                return None;
            }
            pos = l.1 + l.0 as usize;
        } else {
            return None;
        }
    }
    Some((node_type, filesize, blocksizes))
}

/// Decodes block content as a UnixFS node, or reports it unrecognized.
pub fn decode_unixfs(content: &[u8]) -> (r: Option<UnixFsNode>)
    ensures
        match r {
            Some(n) => unixfs_node(content@) == Some(n@),
            None => unixfs_node(content@) is None,
        },
{
    let mut pos: usize = 0;
    let mut data_bytes: Option<Vec<u8>> = None;
    let mut links: Vec<UnixFsLink> = Vec::new();
    proof {
        assert(links_views(links@) =~= Seq::<SpecLink>::empty());
    }
    while pos < content.len()
        invariant
            pos <= content@.len(),
            pb_fields(content@, 0, SpecNodeAcc { data: None, links: Seq::empty() }) == pb_fields(
                content@,
                pos as int,
                SpecNodeAcc {
                    data: match data_bytes {
                        Some(v) => Some(v@),
                        None => None,
                    },
                    links: links_views(links@),
                },
            ),
        decreases content@.len() - pos,
    {
        let key = match read_varint(content, pos) {
            Ok(t) => t,
            Err(_) => {
                return None;
            },
        };
        let field = key.0 / 8;
        let wire = key.0 % 8;
        let p1 = key.1;
        if wire == 0 {
            let v = match read_varint(content, p1) {
                Ok(t) => t,
                Err(_) => {
                    return None;
                },
            };
            pos = v.1;
        } else if wire == 1 {
            if 8 > content.len() - p1 {
                return None;
            }
            pos = p1 + 8;
        } else if wire == 5 {
            if 4 > content.len() - p1 {
                return None;
            }
            pos = p1 + 4;
        } else if wire == 2 {
            let l = match read_varint(content, p1) {
                Ok(t) => t,
                Err(_) => {
                    return None;
                },
            };
            if l.0 > (content.len() - l.1) as u64 {
                return None;
            }
            let a = l.1;
            let b = l.1 + l.0 as usize;
            if field == 1 {
                data_bytes = Some(slice_to_vec(slice_subrange(content, a, b)));
            } else if field == 2 {
                let link = match decode_link(slice_subrange(content, a, b)) {
                    Some(t) => t,
                    None => {
                        return None;
                    },
                };
                let ghost prev = links@;
                links.push(link);
                proof {
                    let last = links@[links@.len() - 1]@;
                    assert(links_views(links@) =~= links_views(prev) + seq![last]);
                }
            }
            pos = b;
        } else {
            return None;
        }
    }
    let data_vec = match data_bytes {
        Some(v) => v,
        None => {
            return None;
        },
    };
    let parsed = match decode_data_message(data_vec.as_slice()) {
        Some(t) => t,
        None => {
            return None;
        },
    };
    let t = match parsed.0 {
        Some(t) => t,
        None => {
            return None;
        },
    };
    if t > 5 {
        return None;
    }
    let node = UnixFsNode { node_type: t, filesize: parsed.1, blocksizes: parsed.2, links };
    Some(node)
}

} // verus!
