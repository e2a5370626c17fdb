//! What the beacon says on the wire: where it listens, how large a message may
//! be, and which messages carry data.

use vstd::prelude::*;
use vstd::string::*;

verus! {

/// The limits of a WebSocket connection, in bytes.
#[derive(Debug, Clone, Copy, PartialEq, Eq)]
pub struct WsConfig {
    pub max_message_size: Option<usize>,
    pub max_frame_size: Option<usize>,
}

/// A WebSocket message.
#[derive(Debug, PartialEq, Eq)]
pub enum SocketMessage {
    Text(String),
    Binary(Vec<u8>),
    Ping(Vec<u8>),
    Pong(Vec<u8>),
    Close,
    Frame,
}

/// The most bytes that one message or one frame may hold.
pub const MAX_SIZE: usize = 100_000_000;

/// The limits that both ends set.
pub fn ws_config() -> (config: Option<WsConfig>)
    ensures
        config == Some(
            (WsConfig { max_message_size: Some(MAX_SIZE), max_frame_size: Some(MAX_SIZE) }),
        ),
        config == Some(
            (WsConfig {
                max_message_size: Some(100_000_000),
                max_frame_size: Some(100_000_000),
            }),
        ),
{
    Some(WsConfig { max_message_size: Some(MAX_SIZE), max_frame_size: Some(MAX_SIZE) })
}

/// The bytes of data that a message carries; none unless it is binary.
pub open spec fn carried(message: SocketMessage) -> Option<Seq<u8>> {
    match message {
        SocketMessage::Binary(data) => Some(data@),
        _ => None,
    }
}

/// Takes the data out of a message; messages that carry none are skipped.
pub fn incoming(message: SocketMessage) -> (data: Option<Vec<u8>>)
    ensures
        data is Some <==> message is Binary,
        data is Some ==> Some(data->Some_0@) == carried(message),
        message matches SocketMessage::Binary(sent) ==> data is Some && data->Some_0@ == sent@,
{
    match message {
        SocketMessage::Binary(data) => Some(data),
        _ => None,
    }
}

/// Makes the message that carries `data`.
///
/// Whoever takes it in finds `data` in it, so nothing sent is skipped.
pub fn outgoing(data: Vec<u8>) -> (message: SocketMessage)
    ensures
        message is Binary,
        carried(message) == Some(data@),
        message is Binary && message->Binary_0@ == data@,
{
    SocketMessage::Binary(data)
}

/// What comes of an item that the connection delivers: the data of a binary
/// message, an error as it is, and nothing of any other message.
pub open spec fn brought<E>(item: Result<SocketMessage, E>) -> Option<Result<Seq<u8>, E>> {
    match item {
        Ok(message) => match carried(message) {
            Some(data) => Some(Ok(data)),
            None => None,
        },
        Err(e) => Some(Err(e)),
    }
}

/// Data or an error, with a sequence for its vector.
pub open spec fn piece_model<E>(piece: Result<Vec<u8>, E>) -> Result<Seq<u8>, E> {
    match piece {
        Ok(data) => Ok(data@),
        Err(e) => Err(e),
    }
}

/// Takes in an item that the connection delivers: data comes out, an error is
/// passed on, and messages that carry no data are skipped.
pub fn incoming_item<E>(item: Result<SocketMessage, E>) -> (piece: Option<Result<Vec<u8>, E>>)
    ensures
        piece is Some <==> brought(item) is Some,
        piece is Some ==> Some(piece_model(piece->Some_0)) == brought(item),
        match item {
            Ok(SocketMessage::Binary(sent)) => piece is Some && piece->Some_0 is Ok
                && piece->Some_0->Ok_0@ == sent@,
            Ok(_) => piece is None,
            Err(e) => piece == Some(Err::<Vec<u8>, E>(e)),
        },
{
    match item {
        Ok(message) => match incoming(message) {
            Some(data) => Some(Ok(data)),
            None => None,
        },
        Err(e) => Some(Err(e)),
    }
}

/// Selects the items that something comes of.
pub open spec fn bringing<E>() -> spec_fn(Result<SocketMessage, E>) -> bool {
    |item: Result<SocketMessage, E>| brought(item) is Some
}

/// Selects the items that are binary messages, empty ones too.
pub open spec fn binary<E>() -> spec_fn(Result<SocketMessage, E>) -> bool {
    |item: Result<SocketMessage, E>| item is Ok && item->Ok_0 is Binary
}

/// Selects the items that are errors.
pub open spec fn failed<E>() -> spec_fn(Result<SocketMessage, E>) -> bool {
    |item: Result<SocketMessage, E>| item is Err
}

/// What comes of a run of items, in the order in which they are delivered.
pub open spec fn received<E>(items: Seq<Result<SocketMessage, E>>) -> Seq<Result<Seq<u8>, E>>
    decreases items.len(),
{
    if items.len() == 0 {
        seq![]
    } else {
        match brought(items.last()) {
            Some(piece) => received(items.drop_last()).push(piece),
            None => received(items.drop_last()),
        }
    }
}

/// What one piece is read as: data by `parse`, an error by `fail`.
pub open spec fn piece_read<A, E, F>(
    piece: Result<Seq<u8>, E>,
    parse: spec_fn(Seq<u8>) -> Result<A, F>,
    fail: spec_fn(E) -> F,
) -> Result<A, F> {
    match piece {
        Ok(data) => parse(data),
        Err(e) => Err(fail(e)),
    }
}

/// What a run of items is read as: each piece that comes of it by itself.
pub open spec fn read_as<A, E, F>(
    items: Seq<Result<SocketMessage, E>>,
    parse: spec_fn(Seq<u8>) -> Result<A, F>,
    fail: spec_fn(E) -> F,
) -> Seq<Result<A, F>> {
    received(items).map_values(|piece: Result<Seq<u8>, E>| piece_read(piece, parse, fail))
}

/// Takes in a run of items.
pub fn incoming_all<E>(items: Vec<Result<SocketMessage, E>>) -> (pieces: Vec<Result<Vec<u8>, E>>)
    ensures
        pieces@.map_values(|piece: Result<Vec<u8>, E>| piece_model(piece)) == received(items@),
{
    let mut pieces: Vec<Result<Vec<u8>, E>> = Vec::new();
    let ghost model = |piece: Result<Vec<u8>, E>| piece_model(piece);
    proof {
        assert(pieces@.map_values(model) =~= received(items@.take(0)));
    }
    for item in it: items
        invariant
            it.seq() == items@,
            model == (|piece: Result<Vec<u8>, E>| piece_model(piece)),
            pieces@.map_values(model) == received(items@.take(it.index() as int)),
    {
        let ghost i = it.index() as int;
        let ghost before = pieces@;
        proof {
            assert(items@.take(i + 1).drop_last() =~= items@.take(i));
            assert(items@.take(i + 1).last() == item);
        }
        if let Some(piece) = incoming_item(item) {
            pieces.push(piece);
            proof {
                assert(pieces@.map_values(model) =~= before.map_values(model).push(
                    piece_model(piece),
                ));
            }
        }
    }
    proof {
        assert(items@.take(items@.len() as int) =~= items@);
    }
    pieces
}

/// Law: a binary message brings its bytes, all of them, an error itself, and any
/// other message nothing; a run with one more item brings what it brought and then
/// that.
pub proof fn law_items_bring_what_they_hold<E>(
    items: Seq<Result<SocketMessage, E>>,
    item: Result<SocketMessage, E>,
    data: Vec<u8>,
    e: E,
)
    ensures
        received(Seq::<Result<SocketMessage, E>>::empty()).len() == 0,
        item matches Ok(SocketMessage::Binary(sent)) ==> received(items.push(item)) == received(
            items,
        ).push(Ok(sent@)),
        item matches Err(error) ==> received(items.push(item)) == received(items).push(Err(error)),
        item is Ok && !(item->Ok_0 is Binary) ==> received(items.push(item)) == received(items),
        carried(SocketMessage::Binary(data)) == Some(data@),
        item is Ok && !(item->Ok_0 is Binary) ==> carried(item->Ok_0) is None,
        piece_model(Ok::<Vec<u8>, E>(data)) == Ok::<Seq<u8>, E>(data@),
        piece_model(Err::<Vec<u8>, E>(e)) == Err::<Seq<u8>, E>(e),
        bringing::<E>()(item) <==> item is Err || item->Ok_0 is Binary,
        binary::<E>()(item) <==> item is Ok && item->Ok_0 is Binary,
        failed::<E>()(item) <==> item is Err,
{
    assert(items.push(item).drop_last() =~= items);
}

/// Law: an item is read by itself and in its place: a run with one more item is
/// read as the run, and then as that item: a binary message as what `parse` makes
/// of its data, an error as what `fail` makes of it, any other message as nothing.
pub proof fn law_items_keep_their_place<A, E, F>(
    items: Seq<Result<SocketMessage, E>>,
    item: Result<SocketMessage, E>,
    parse: spec_fn(Seq<u8>) -> Result<A, F>,
    fail: spec_fn(E) -> F,
)
    ensures
        read_as(items.push(item), parse, fail) == match item {
            Ok(SocketMessage::Binary(data)) => read_as(items, parse, fail).push(parse(data@)),
            Ok(_) => read_as(items, parse, fail),
            Err(e) => read_as(items, parse, fail).push(Err(fail(e))),
        },
        read_as(Seq::<Result<SocketMessage, E>>::empty(), parse, fail).len() == 0,
{
    assert(items.push(item).drop_last() =~= items);
    assert(read_as(items.push(item), parse, fail) =~= match item {
        Ok(SocketMessage::Binary(data)) => read_as(items, parse, fail).push(parse(data@)),
        Ok(_) => read_as(items, parse, fail),
        Err(e) => read_as(items, parse, fail).push(Err(fail(e))),
    });
}

/// Law: as much comes out as there are binary messages, empty ones too, and
/// errors.
pub proof fn law_binaries_and_errors_count<A, E, F>(
    items: Seq<Result<SocketMessage, E>>,
    parse: spec_fn(Seq<u8>) -> Result<A, F>,
    fail: spec_fn(E) -> F,
)
    ensures
        received(items).len() == items.filter(binary()).len() + items.filter(failed()).len(),
        read_as(items, parse, fail).len() == items.filter(binary()).len() + items.filter(
            failed(),
        ).len(),
    decreases items.len(),
{
    reveal(Seq::filter);
    if items.len() > 0 {
        law_binaries_and_errors_count(items.drop_last(), parse, fail);
    }
}

/// Law: each item is taken by itself: what comes of two runs one behind the other
/// is what comes of the first and then what comes of the second.
pub proof fn law_items_stand_alone<A, E, F>(
    first: Seq<Result<SocketMessage, E>>,
    second: Seq<Result<SocketMessage, E>>,
    parse: spec_fn(Seq<u8>) -> Result<A, F>,
    fail: spec_fn(E) -> F,
)
    ensures
        received(first + second) == received(first) + received(second),
        read_as(first + second, parse, fail) == read_as(first, parse, fail) + read_as(
            second,
            parse,
            fail,
        ),
    decreases second.len(),
{
    if second.len() == 0 {
        assert(first + second =~= first);
    } else {
        law_items_stand_alone(first, second.drop_last(), parse, fail);
        assert((first + second).drop_last() =~= first + second.drop_last());
    }
    assert(received(first + second) =~= received(first) + received(second));
    assert(read_as(first + second, parse, fail) =~= read_as(first, parse, fail) + read_as(
        second,
        parse,
        fail,
    ));
}

/// A run brings what those of its items bring that anything comes of.
proof fn lemma_received_of_bringing<E>(items: Seq<Result<SocketMessage, E>>)
    ensures
        received(items.filter(bringing())) == received(items),
    decreases items.len(),
{
    reveal(Seq::filter);
    if items.len() > 0 {
        lemma_received_of_bringing(items.drop_last());
        if brought(items.last()) is Some {
            let rest = items.drop_last().filter(bringing());
            assert(rest.push(items.last()).drop_last() =~= rest);
        }
    }
}

/// Law: messages that carry no data are skipped: runs that differ only in such
/// messages, put in or left out anywhere, bring the same and are read as the same.
pub proof fn law_skipping_changes_nothing<A, E, F>(
    items: Seq<Result<SocketMessage, E>>,
    others: Seq<Result<SocketMessage, E>>,
    parse: spec_fn(Seq<u8>) -> Result<A, F>,
    fail: spec_fn(E) -> F,
)
    requires
        items.filter(bringing()) == others.filter(bringing()),
    ensures
        received(items) == received(others),
        read_as(items, parse, fail) == read_as(others, parse, fail),
{
    lemma_received_of_bringing(items);
    lemma_received_of_bringing(others);
}

/// Law: what is sent is read back: where each object is written into a message of
/// its own, all are delivered, and parsing undoes writing, the run is read as the
/// objects, all of them and in order.
pub proof fn law_sent_is_read_back<A, E, F>(
    items: Seq<Result<SocketMessage, E>>,
    objects: Seq<A>,
    write: spec_fn(A) -> Seq<u8>,
    parse: spec_fn(Seq<u8>) -> Result<A, F>,
    fail: spec_fn(E) -> F,
)
    requires
        items.len() == objects.len(),
        forall|i: int|
            0 <= i < objects.len() ==> (#[trigger] items[i]) is Ok && carried(items[i]->Ok_0)
                == Some(write(objects[i])),
        forall|i: int|
            0 <= i < objects.len() ==> parse(write(#[trigger] objects[i])) == Ok::<A, F>(objects[i]),
    ensures
        received(items) == objects.map_values(|object: A| Ok::<Seq<u8>, E>(write(object))),
        read_as(items, parse, fail) == objects.map_values(|object: A| Ok::<A, F>(object)),
    decreases items.len(),
{
    if items.len() > 0 {
        law_sent_is_read_back(items.drop_last(), objects.drop_last(), write, parse, fail);
        let last = items.len() - 1;
        assert(carried(items[last]->Ok_0) == Some(write(objects[last])));
    }
    assert(received(items) =~= objects.map_values(|object: A| Ok::<Seq<u8>, E>(write(object))));
    assert(read_as(items, parse, fail) =~= objects.map_values(|object: A| Ok::<A, F>(object)));
}

/// The address to listen on: the beacon's port on every interface.
pub fn listen_address() -> (address: String)
    ensures
        address@ == "0.0.0.0"@ + ":11426"@,
{
    String::from_str("0.0.0.0").concat(":11426")
}

/// The address of a listening beacon on `host`.
pub fn peer_address(host: &str) -> (address: String)
    ensures
        address@ == host@ + ":11426"@,
{
    String::from_str(host).concat(":11426")
}

/// The URL to open a WebSocket to `address` by.
pub fn socket_url(address: &str) -> (url: String)
    ensures
        url@ == "ws://"@ + address@,
{
    String::from_str("ws://").concat(address)
}

} // verus!
