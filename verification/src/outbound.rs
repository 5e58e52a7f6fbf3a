use vstd::prelude::*;

use vstd::string::StringExecFns;

verus! {

/// One outbound HTTP request, ready for the transport: the target URI
/// (the worker base followed by the inbound path-and-query), the inbound
/// method, and the inbound headers.
pub struct OutboundRequest {
    pub uri: String,
    pub method: String,
    pub headers: Vec<(String, String)>,
}

/// The header list read as a map from name to value, a later entry
/// overwriting an earlier one with the same name.
pub open spec fn header_map(hs: Seq<(String, String)>) -> Map<Seq<char>, Seq<char>>
    decreases hs.len(),
{
    if hs.len() == 0 {
        Map::empty()
    } else {
        header_map(hs.drop_last()).insert(hs.last().0@, hs.last().1@)
    }
}

/// No two entries share a header name.
pub open spec fn header_names_unique(hs: Seq<(String, String)>) -> bool {
    forall|j: int, k: int| 0 <= j < k < hs.len() ==> hs[j].0@ != hs[k].0@
}

/// Replacing the value in entry `i` is, at the map level, an insert for
/// that entry's name.
proof fn lemma_header_map_update(hs: Seq<(String, String)>, i: int, p: (String, String))
    requires
        0 <= i < hs.len(),
        header_names_unique(hs),
        p.0@ == hs[i].0@,
    ensures
        header_map(hs.update(i, p)) == header_map(hs).insert(p.0@, p.1@),
    decreases hs.len(),
{
    let u = hs.update(i, p);
    if i == hs.len() - 1 {
        assert(u.drop_last() =~= hs.drop_last());
        assert(u.last() == p);
        assert(header_map(hs).insert(p.0@, p.1@) =~= header_map(hs.drop_last()).insert(
            p.0@,
            p.1@,
        ));
    } else {
        assert(u.drop_last() =~= hs.drop_last().update(i, p));
        assert(u.last() == hs.last());
        lemma_header_map_update(hs.drop_last(), i, p);
        assert(hs[i].0@ != hs.last().0@);
        assert(header_map(hs.drop_last()).insert(p.0@, p.1@).insert(hs.last().0@, hs.last().1@)
            =~= header_map(hs.drop_last()).insert(hs.last().0@, hs.last().1@).insert(p.0@, p.1@));
    }
}

/// Inserts a header: the value of an entry with the same name is replaced,
/// otherwise the entry is appended.
#[verifier::loop_isolation(false)]
pub fn insert_header(headers: &mut Vec<(String, String)>, name: String, value: String)
    requires
        header_names_unique(old(headers)@),
    ensures
        header_names_unique(final(headers)@),
        header_map(final(headers)@) == header_map(old(headers)@).insert(name@, value@),
{
    let ghost hs = headers@;
    let n = headers.len();
    let mut i: usize = 0;
    while i < n
        invariant
            headers@ == hs,
            n == hs.len(),
            i <= n,
            forall|j: int| 0 <= j < i ==> hs[j].0@ != name@,
        decreases n - i,
    {
        if headers[i].0 == name {
            headers.set(i, (name, value));
            proof {
                let u = hs.update(i as int, (name, value));
                assert(headers@ == u);
                lemma_header_map_update(hs, i as int, (name, value));
                assert forall|j: int, k: int| 0 <= j < k < u.len() implies u[j].0@ != u[k].0@ by {
                    assert(u[j].0@ == hs[j].0@);
                    assert(u[k].0@ == hs[k].0@);
                }
            }
            return ;
        }
        i = i + 1;
    }
    headers.push((name, value));
    proof {
        let u = hs.push((name, value));
        assert(headers@ == u);
        assert(u.drop_last() =~= hs);
        assert forall|j: int, k: int| 0 <= j < k < u.len() implies u[j].0@ != u[k].0@ by {
            if k < hs.len() {
                assert(u[j] == hs[j]);
                assert(u[k] == hs[k]);
            } else {
                assert(u[j] == hs[j]);
                assert(u[k].0@ == name@);
            }
        }
    }
}

/// Builds the outbound request: the target URI is the selected worker's
/// base URI followed by the inbound path-and-query (the bare base when the
/// inbound request has none); the method is copied; every inbound header
/// is inserted in order, a later duplicate overwriting an earlier value.
#[verifier::loop_isolation(false)]
pub fn build_outbound_request(
    worker: &str,
    method: &str,
    path_and_query: &Option<String>,
    headers: &Vec<(String, String)>,
) -> (r: OutboundRequest)
    ensures
        path_and_query matches Some(pq) ==> r.uri@ == worker@ + pq@,
        path_and_query is None ==> r.uri@ == worker@,
        r.method@ == method@,
        header_names_unique(r.headers@),
        header_map(r.headers@) == header_map(headers@),
{
    let mut uri = worker.to_owned();
    match path_and_query {
        Some(pq) => {
            uri.append(pq.as_str());
        },
        None => {},
    }
    let mut out_headers: Vec<(String, String)> = Vec::new();
    let n = headers.len();
    let mut i: usize = 0;
    while i < n
        invariant
            n == headers@.len(),
            i <= n,
            header_names_unique(out_headers@),
            header_map(out_headers@) == header_map(headers@.take(i as int)),
        decreases n - i,
    {
        let name = headers[i].0.clone();
        let value = headers[i].1.clone();
        insert_header(&mut out_headers, name, value);
        proof {
            let t = headers@.take(i as int);
            let p = headers@[i as int];
            let x = t.push(p);
            assert(x.drop_last() =~= t);
            assert(x.last() == p);
            assert(header_map(x) == header_map(t).insert(p.0@, p.1@));
            assert(x =~= headers@.take(i as int + 1));
        }
        i = i + 1;
    }
    proof {
        assert(headers@.take(n as int) =~= headers@);
    }
    OutboundRequest { uri, method: method.to_owned(), headers: out_headers }
}

} // verus!
