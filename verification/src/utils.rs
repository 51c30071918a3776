//! Reading the server and port out of an `rtsp://` URL.
use vstd::prelude::*;
use vstd::string::*;
use crate::text::{
    after, before, find_char, has_piece, index_of, lemma_before_lacks, lemma_index_of,
    lemma_index_of_append, lemma_index_of_first_sep, piece, split_piece,
};

verus! {

/// The authority of an `rtsp://server:port/path` URL: the piece between its second and
/// third `/` (or the end of the URL when there is no third `/`).
pub open spec fn url_authority(url: Seq<char>) -> Seq<char> {
    piece(url, '/', 2)
}

/// The server named in the URL: the authority up to its first `:`.
pub open spec fn url_server(url: Seq<char>) -> Seq<char> {
    before(url_authority(url), ':')
}

/// The port the URL names: the authority after its first `:`, or `554`, RTSP's
/// well-known port, when the authority holds no `:`.
pub open spec fn url_port(url: Seq<char>) -> Seq<char> {
    if index_of(url_authority(url), ':') >= 0 {
        after(url_authority(url), ':')
    } else {
        seq!['5', '5', '4']
    }
}

/// The server holds neither `/` nor `:`, and the port holds no `/`.
pub proof fn lemma_url_parts_lack_separators(url: Seq<char>)
    ensures
        !url_server(url).contains('/'),
        !url_server(url).contains(':'),
        !url_port(url).contains('/'),
{
    let rest = after(after(url, '/'), '/');
    assert(url_authority(url) == before(rest, '/')) by {
        reveal_with_fuel(piece, 3);
    }
    let auth = url_authority(url);
    lemma_before_lacks(rest, '/');
    lemma_before_lacks(auth, ':');
    if url_server(url).contains('/') {
        let i = choose|i: int| 0 <= i < url_server(url).len() && url_server(url)[i] == '/';
        assert(auth[i] == '/');
    }
    lemma_index_of(auth, ':');
    if index_of(auth, ':') >= 0 && url_port(url).contains('/') {
        let i = choose|i: int| 0 <= i < url_port(url).len() && url_port(url)[i] == '/';
        assert(auth[i + index_of(auth, ':') + 1] == '/');
    }
    if index_of(auth, ':') < 0 {
        assert(!url_port(url).contains('/')) by {
            if url_port(url).contains('/') {
                let i = choose|i: int| 0 <= i < url_port(url).len() && url_port(url)[i] == '/';
                assert(seq!['5', '5', '4'][i] != '/');
            }
        }
    }
}

/// Splits an `rtsp://server:port/whatever` URL into its server and port, the port
/// defaulting to 554. It never fails; a URL with fewer than two `/` has no server part.
pub fn parse_rtsp_url(url: &String) -> (r: Result<(String, String), String>)
    requires
        has_piece(url@, '/', 2),
    ensures
        r matches Ok((server, port)) && server@ == url_server(url@) && port@ == url_port(url@),
        r matches Ok((server, port)) && !server@.contains('/') && !server@.contains(':')
            && !port@.contains('/'),
{
    proof {
        lemma_url_parts_lack_separators(url@);
    }
    let s = url.as_str();
    let auth = match split_piece(s, '/', 2) {
        Some(a) => a,
        // not reached: the URL has a third piece
        None => {
            return Err(String::new());
        },
    };
    let n = auth.unicode_len();
    assert(auth@.skip(0) =~= auth@);
    match find_char(auth, 0, ':') {
        Some(i) => {
            let server = auth.substring_char(0, i);
            let port = auth.substring_char(i + 1, n);
            assert(server@ =~= url_server(url@));
            assert(port@ =~= url_port(url@));
            Ok((String::from_str(server), String::from_str(port)))
        },
        None => {
            proof {
                reveal_strlit("554");
            }
            let port = "554";
            assert(port@ =~= url_port(url@));
            Ok((String::from_str(auth), String::from_str(port)))
        },
    }
}

/// The server and port come from the URL's authority (the piece between its second and
/// third `/`) alone: when the authority holds a `:`, it is the server, a `:` and the port,
/// with no `:` in the server; when it holds none, it is the server and the port is 554.
pub proof fn lemma_url_parts_from_authority(url: Seq<char>)
    ensures
        piece(url, '/', 2).contains(':') ==> {
            &&& piece(url, '/', 2) == url_server(url) + seq![':'] + url_port(url)
            &&& !url_server(url).contains(':')
        },
        !piece(url, '/', 2).contains(':') ==> {
            &&& url_server(url) == piece(url, '/', 2)
            &&& url_port(url) == seq!['5', '5', '4']
        },
{
    let auth = piece(url, '/', 2);
    lemma_index_of(auth, ':');
    lemma_before_lacks(auth, ':');
    let i = index_of(auth, ':');
    if i >= 0 {
        assert(auth == auth.take(i) + seq![':'] + auth.skip(i + 1)) by {
            assert(auth =~= auth.take(i) + seq![':'] + auth.skip(i + 1));
        }
    } else {
        if auth.contains(':') {
            let j = choose|j: int| 0 <= j < auth.len() && auth[j] == ':';
            assert(auth[j] != ':');
        }
    }
}

/// A path after the authority does not change the server or the port: a URL with exactly
/// two `/` gives the same server and port as that URL followed by `/` and any path.
pub proof fn lemma_url_path_does_not_matter(url: Seq<char>, path: Seq<char>)
    requires
        has_piece(url, '/', 2),
        !has_piece(url, '/', 3),
    ensures
        url_server(url + seq!['/'] + path) == url_server(url),
        url_port(url + seq!['/'] + path) == url_port(url),
{
    reveal_with_fuel(has_piece, 4);
    reveal_with_fuel(piece, 3);
    let tail = seq!['/'] + path;
    let u = url + tail;
    assert(u =~= url + tail);
    let a1 = after(url, '/');
    let a2 = after(a1, '/');
    lemma_index_of_append(url, tail, '/');
    lemma_index_of_append(a1, tail, '/');
    assert(after(u, '/') == a1 + tail);
    assert(after(a1 + tail, '/') == a2 + tail);
    assert(index_of(a2, '/') < 0);
    assert(a2 + tail =~= a2 + seq!['/'] + path);
    lemma_index_of_first_sep(a2, path, '/');
    assert(before(a2 + tail, '/') == a2);
    assert(before(a2, '/') == a2);
    assert(piece(u, '/', 2) == before(after(after(u, '/'), '/'), '/'));
    assert(piece(url, '/', 2) == before(a2, '/'));
    assert(url_authority(u) == url_authority(url));
    assert(url + seq!['/'] + path =~= u);
}

} // verus!
