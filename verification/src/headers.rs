//! Which headers cross the tunnel, in each direction.

use crate::outside::{header_name, header_value, is_header_text, is_token, token_char};
use crate::protocol::{hop_by_hop, is_hop_by_hop};
use crate::string_map::{pairs_map, StringMap};
use crate::text::{lower, same_text, to_lower};
use vstd::prelude::*;

verus! {

/// A header as it stands on a connection: its name, which the HTTP layer gives in lower case, and
/// the bytes of its value.
pub struct RawHeader {
    pub name: String,
    pub value: Vec<u8>,
}

impl DeepView for RawHeader {
    type V = (Seq<char>, Seq<u8>);

    open spec fn deep_view(&self) -> (Seq<char>, Seq<u8>) {
        (self.name@, self.value@)
    }
}

/// Visible ASCII, the space or the tab.
pub open spec fn visible_byte(b: u8) -> bool {
    (32 <= b && b < 127) || b == 9
}

/// Whether a header value can be read as text.
pub open spec fn visible(value: Seq<u8>) -> bool {
    forall|i: int| 0 <= i < value.len() ==> visible_byte(#[trigger] value[i])
}

/// The text of a run of ASCII bytes.
pub open spec fn ascii_text(value: Seq<u8>) -> Seq<char> {
    Seq::new(value.len(), |i: int| value[i] as char)
}

/// The text of a header value, where all of it is visible.
pub fn visible_text(value: &Vec<u8>) -> (r: Option<String>)
    ensures
        match r {
            Some(text) => visible(value@) && text@ == ascii_text(value@),
            None => !visible(value@),
        },
{
    let mut text: String = String::new();
    let mut i: usize = 0;
    while i < value.len()
        invariant
            i <= value@.len(),
            forall|j: int| 0 <= j < i ==> visible_byte(#[trigger] value@[j]),
            text@ == ascii_text(value@.take(i as int)),
        decreases value@.len() - i,
    {
        let b: u8 = value[i];
        if !((32 <= b && b < 127) || b == 9) {
            return None;
        }
        text.push(b as char);
        i = i + 1;
    }
    assert(value@.take(i as int) == value@);
    Some(text)
}

/// The headers of a message that are carried through the tunnel: those that are not hop-by-hop
/// and whose value is text. Where a name comes more than once, the last such value stands.
pub open spec fn carried(raw: Seq<(Seq<char>, Seq<u8>)>) -> Map<Seq<char>, Seq<char>>
    decreases raw.len(),
{
    if raw.len() == 0 {
        Map::empty()
    } else {
        let before = carried(raw.drop_last());
        let (name, value) = raw.last();
        if hop_by_hop(name) || !visible(value) {
            before
        } else {
            before.insert(name, ascii_text(value))
        }
    }
}

/// The headers of a message that are carried through the tunnel.
pub fn carry_headers(raw: &Vec<RawHeader>) -> (out: StringMap<String>)
    ensures
        out@ == carried(raw.deep_view()),
{
    let mut out: StringMap<String> = StringMap::new();
    let mut i: usize = 0;
    let ghost all = raw.deep_view();
    assert(all.take(0) =~= Seq::empty());
    while i < raw.len()
        invariant
            i <= raw@.len(),
            all == raw.deep_view(),
            out@ == carried(all.take(i as int)),
        decreases raw@.len() - i,
    {
        assert(all.take(i + 1).drop_last() == all.take(i as int));
        assert(all.take(i + 1).last() == (raw@[i as int].name@, raw@[i as int].value@));
        if !is_hop_by_hop(&raw[i].name) {
            if let Some(text) = visible_text(&raw[i].value) {
                out.insert(raw[i].name.clone(), text);
            }
        }
        i = i + 1;
    }
    assert(all.take(i as int) == all);
    out
}

/// Whether a header is handed to the local server: neither hop-by-hop nor `host`.
pub open spec fn reaches_upstream(name: Seq<char>) -> bool {
    !hop_by_hop(name) && lower(name) != "host"@
}

/// The headers of a request that are handed to the local server.
pub open spec fn for_upstream(headers: Map<Seq<char>, Seq<char>>) -> Map<Seq<char>, Seq<char>> {
    Map::new(
        |k: Seq<char>| headers.contains_key(k) && reaches_upstream(k),
        |k: Seq<char>| headers[k],
    )
}

/// The headers of a request that are handed to the local server.
pub fn upstream_headers(headers: &StringMap<String>) -> (out: StringMap<String>)
    ensures
        out@ == for_upstream(headers@),
{
    let mut out: StringMap<String> = StringMap::new();
    let n = headers.len();
    let ghost all = headers.pairs();
    let mut i: usize = 0;
    assert(all.take(0) =~= Seq::empty());
    assert(out@ =~= for_upstream(pairs_map(all.take(0))));
    while i < n
        invariant
            i <= n == all.len(),
            all == headers.pairs(),
            out@ == for_upstream(pairs_map(all.take(i as int))),
        decreases n - i,
    {
        let name = headers.name_at(i);
        let low = to_lower(name);
        let ghost before = out@;
        assert(all.take(i + 1).drop_last() == all.take(i as int));
        if !same_text(&low, "host") && !is_hop_by_hop(name) {
            out.insert(name.clone(), headers.value_at(i).clone());
        }
        assert(out@ =~= for_upstream(pairs_map(all.take(i + 1))));
        i = i + 1;
    }
    assert(all.take(i as int) == all);
    out
}

/// Whether a header of a tunnelled response is handed to the public client: it is not hop-by-hop,
/// and its name and value are those of an HTTP header.
pub open spec fn reaches_public(name: Seq<char>, value: Seq<char>) -> bool {
    &&& !hop_by_hop(name)
    &&& is_token(name) && name.len() <= 65535
    &&& is_header_text(value)
}

/// The headers of a tunnelled response that are handed to the public client, names in lower case.
pub open spec fn for_public(pairs: Seq<(Seq<char>, Seq<char>)>) -> Seq<(Seq<char>, Seq<char>)>
    decreases pairs.len(),
{
    if pairs.len() == 0 {
        Seq::empty()
    } else {
        let before = for_public(pairs.drop_last());
        let (name, value) = pairs.last();
        if reaches_public(name, value) {
            before.push((lower(name), value))
        } else {
            before
        }
    }
}

/// The content of a list of headers.
pub open spec fn header_list(list: Seq<(String, String)>) -> Seq<(Seq<char>, Seq<char>)> {
    Seq::new(list.len(), |i: int| (list[i].0@, list[i].1@))
}

/// The headers of a tunnelled response that are handed to the public client.
pub fn public_headers(headers: &StringMap<String>) -> (out: Vec<(String, String)>)
    ensures
        header_list(out@) == for_public(headers.pairs()),
{
    let mut out: Vec<(String, String)> = Vec::new();
    let n = headers.len();
    let ghost all = headers.pairs();
    let mut i: usize = 0;
    assert(all.take(0) =~= Seq::empty());
    assert(header_list(out@) =~= Seq::empty());
    while i < n
        invariant
            i <= n == all.len(),
            all == headers.pairs(),
            header_list(out@) == for_public(all.take(i as int)),
        decreases n - i,
    {
        let name = headers.name_at(i);
        let value = headers.value_at(i);
        let ghost before = header_list(out@);
        assert(all.take(i + 1).drop_last() == all.take(i as int));
        assert(all.take(i + 1).last() == (name@, value@));
        if !is_hop_by_hop(name) {
            if let Some(n2) = header_name(name) {
                if header_value(value) {
                    out.push((n2, value.clone()));
                    assert(header_list(out@) =~= before.push((lower(name@), value@)));
                }
            }
        }
        i = i + 1;
    }
    assert(all.take(i as int) == all);
    out
}

// ---------------------------------------------------------------------------
// Laws
// ---------------------------------------------------------------------------

/// The tunnel carries a header exactly where it is not hop-by-hop and one of its values is text,
/// and carries the last such value.
pub proof fn law_carried_headers(raw: Seq<(Seq<char>, Seq<u8>)>, name: Seq<char>)
    ensures
        carried(raw).contains_key(name) <==> !hop_by_hop(name) && exists|i: int|
            0 <= i < raw.len() && #[trigger] raw[i].0 == name && visible(raw[i].1),
        carried(raw).contains_key(name) ==> exists|i: int|
            0 <= i < raw.len() && #[trigger] raw[i].0 == name && visible(raw[i].1)
                && carried(raw)[name] == ascii_text(raw[i].1) && (forall|j: int|
                i < j < raw.len() && #[trigger] raw[j].0 == name ==> !visible(raw[j].1)),
    decreases raw.len(),
{
    if raw.len() > 0 {
        let rest = raw.drop_last();
        let n = raw.len() - 1;
        law_carried_headers(rest, name);
        assert(forall|i: int| 0 <= i < rest.len() ==> rest[i] == raw[i]);
        if raw[n].0 == name && visible(raw[n].1) {
            assert(raw[n].0 == name);
        } else if carried(rest).contains_key(name) {
            let i = choose|i: int|
                0 <= i < rest.len() && #[trigger] rest[i].0 == name && visible(rest[i].1)
                    && carried(rest)[name] == ascii_text(rest[i].1) && (forall|j: int|
                    i < j < rest.len() && #[trigger] rest[j].0 == name ==> !visible(rest[j].1));
            assert(raw[i].0 == name);
            assert forall|j: int| i < j < raw.len() && #[trigger] raw[j].0 == name implies !visible(
                raw[j].1,
            ) by {
                if j < n {
                    assert(rest[j].0 == name);
                }
            }
        } else {
            assert forall|i: int|
                0 <= i < raw.len() && #[trigger] raw[i].0 == name && visible(raw[i].1) implies
                hop_by_hop(name) by {
                if i < n {
                    assert(rest[i].0 == name);
                }
            }
        }
    }
}

/// No hop-by-hop header reaches the local server, and neither does `host`; every other header
/// that the tunnel carries reaches it unchanged.
pub proof fn law_upstream_headers(raw: Seq<(Seq<char>, Seq<u8>)>, name: Seq<char>)
    ensures
        hop_by_hop(name) || lower(name) == "host"@ ==> !for_upstream(carried(raw)).contains_key(
            name,
        ),
        carried(raw).contains_key(name) && lower(name) != "host"@ ==> for_upstream(
            carried(raw),
        ).contains_key(name) && for_upstream(carried(raw))[name] == carried(raw)[name],
{
    law_carried_headers(raw, name);
}

/// No hop-by-hop header reaches the public client, whatever the client on the other side sent.
pub proof fn law_public_headers(pairs: Seq<(Seq<char>, Seq<char>)>, i: int)
    requires
        0 <= i < for_public(pairs).len(),
    ensures
        !hop_by_hop(for_public(pairs)[i].0),
        exists|j: int|
            0 <= j < pairs.len() && for_public(pairs)[i] == (
                lower(pairs[j].0),
                #[trigger] pairs[j].1,
            ) && reaches_public(pairs[j].0, pairs[j].1),
    decreases pairs.len(),
{
    let rest = pairs.drop_last();
    let n = pairs.len() - 1;
    if i < for_public(rest).len() {
        law_public_headers(rest, i);
        let j = choose|j: int|
            0 <= j < rest.len() && for_public(rest)[i] == (lower(rest[j].0), #[trigger] rest[j].1)
                && reaches_public(rest[j].0, rest[j].1);
        assert(pairs[j].1 == rest[j].1);
    } else {
        assert(pairs[n].1 == pairs.last().1);
        assert(lower(lower(pairs[n].0)) =~= lower(pairs[n].0)) by {
            lemma_lower_twice(pairs[n].0);
        }
    }
}

/// Every header of a tunnelled response that may pass reaches the public client.
pub proof fn law_public_headers_complete(pairs: Seq<(Seq<char>, Seq<char>)>, j: int)
    requires
        0 <= j < pairs.len(),
        reaches_public(pairs[j].0, pairs[j].1),
    ensures
        for_public(pairs).contains((lower(pairs[j].0), pairs[j].1)),
    decreases pairs.len(),
{
    let rest = pairs.drop_last();
    let list = for_public(pairs);
    if j < rest.len() {
        law_public_headers_complete(rest, j);
        let i = choose|i: int|
            0 <= i < for_public(rest).len() && for_public(rest)[i] == (
                lower(pairs[j].0),
                pairs[j].1,
            );
        assert(list[i] == for_public(rest)[i]);
    } else {
        assert(list.last() == (lower(pairs[j].0), pairs[j].1));
    }
}

/// A text is an HTTP token exactly where it is not empty and each of its characters may stand in
/// one, and it can be a header value exactly where each of its characters can, whatever their
/// number.
pub proof fn law_http_texts(a: Seq<char>, b: Seq<char>, c: char)
    ensures
        !is_token(Seq::empty()),
        is_token(seq![c]) <==> token_char(c),
        a.len() > 0 && b.len() > 0 ==> (is_token(a + b) <==> is_token(a) && is_token(b)),
        is_header_text(Seq::empty()),
        is_header_text(seq![c]) <==> c as u32 == 9 || (c as u32 >= 32 && c as u32 != 127),
        is_header_text(a + b) <==> is_header_text(a) && is_header_text(b),
{
    let one = seq![c];
    assert(one[0] == c);
    let all = a + b;
    assert(forall|i: int| 0 <= i < a.len() ==> #[trigger] a[i] == all[i]);
    assert(forall|i: int| 0 <= i < b.len() ==> #[trigger] b[i] == all[a.len() + i]);
    assert(forall|i: int|
        0 <= i < all.len() ==> #[trigger] all[i] == if i < a.len() {
            a[i]
        } else {
            b[i - a.len()]
        });
}

/// A header value is text exactly where each of its bytes is, whatever their number: the tab, or
/// one from the space up to `~`.
pub proof fn law_visible(a: Seq<u8>, b: Seq<u8>, byte: u8)
    ensures
        visible(Seq::empty()),
        visible(seq![byte]) <==> byte == 9 || 32 <= byte <= 126,
        visible(a + b) <==> visible(a) && visible(b),
{
    if visible(seq![byte]) {
        assert(visible_byte(seq![byte][0]));
    }
    let all = a + b;
    if visible(all) {
        assert forall|i: int| 0 <= i < a.len() implies visible_byte(#[trigger] a[i]) by {
            assert(all[i] == a[i]);
        }
        assert forall|i: int| 0 <= i < b.len() implies visible_byte(#[trigger] b[i]) by {
            assert(all[a.len() + i] == b[i]);
        }
    }
}

/// The text of a header value has one character for each of its bytes, with the same code.
pub proof fn law_ascii_text(value: Seq<u8>, i: int)
    requires
        0 <= i < value.len(),
    ensures
        ascii_text(value).len() == value.len(),
        ascii_text(value)[i] as u32 == value[i] as u32,
{
}

/// The content of a header is its name and its bytes, as they stand.
pub proof fn law_header_content(header: RawHeader)
    ensures
        header.deep_view().0 == header.name@,
        header.deep_view().1 == header.value@,
{
}

/// Of the headers that came through the tunnel the local server gets each that is neither
/// hop-by-hop nor `host`, with its value, and no other.
pub proof fn law_upstream_gets_the_rest(headers: Map<Seq<char>, Seq<char>>, name: Seq<char>)
    ensures
        for_upstream(headers).contains_key(name) <==> headers.contains_key(name) && !hop_by_hop(
            name,
        ) && lower(name) != "host"@,
        for_upstream(headers).contains_key(name) ==> for_upstream(headers)[name] == headers[name],
{
}

/// One header reaches the public client, its name in lower case and its value unchanged, exactly
/// where it is end-to-end and well formed.
pub proof fn law_public_header(name: Seq<char>, value: Seq<char>)
    ensures
        !hop_by_hop(name) && is_token(name) && name.len() <= 65535 && is_header_text(value)
            ==> for_public(seq![(name, value)]) == seq![(lower(name), value)],
        hop_by_hop(name) || !is_token(name) || name.len() > 65535 || !is_header_text(value)
            ==> for_public(seq![(name, value)]) == Seq::<(Seq<char>, Seq<char>)>::empty(),
{
    reveal_with_fuel(for_public, 2);
    assert(seq![(name, value)].drop_last() =~= Seq::empty());
    assert(for_public(seq![(name, value)].drop_last()) =~= Seq::empty());
}

/// Whether a header reaches the public client does not depend on the others, and they keep their
/// order.
pub proof fn law_public_headers_one_by_one(
    a: Seq<(Seq<char>, Seq<char>)>,
    b: Seq<(Seq<char>, Seq<char>)>,
)
    ensures
        for_public(a + b) == for_public(a) + for_public(b),
    decreases b.len(),
{
    if b.len() == 0 {
        assert(a + b =~= a);
        assert(for_public(a) + for_public(b) =~= for_public(a));
    } else {
        assert((a + b).drop_last() =~= a + b.drop_last());
        law_public_headers_one_by_one(a, b.drop_last());
        assert(for_public(a + b) =~= for_public(a) + for_public(b));
    }
}

/// The content of a list of headers is their names and values, in order.
pub proof fn law_header_list(list: Seq<(String, String)>, i: int)
    requires
        0 <= i < list.len(),
    ensures
        header_list(list).len() == list.len(),
        header_list(list)[i].0 == list[i].0@,
        header_list(list)[i].1 == list[i].1@,
{
}

/// Lower case of lower case is lower case.
proof fn lemma_lower_twice(s: Seq<char>)
    ensures
        lower(lower(s)) == lower(s),
{
    assert(lower(lower(s)) =~= lower(s));
}

} // verus!
