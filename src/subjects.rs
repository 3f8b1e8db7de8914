use vstd::prelude::*;

verus! {

/// Namespace shared by every subject of the echo protocol.
pub open spec fn namespace() -> Seq<char> {
    seq!['n', 'a', 't', 's', 's', 'y', 'n', 'c', 'm', 's', 'g']
}

/// Identifier under which the control plane publishes replies.
pub open spec fn master_id() -> Seq<char> {
    seq!['c', 'l', 'o', 'u', 'd', '-', 'm', 'a', 's', 't', 'e', 'r']
}

pub open spec fn dot() -> Seq<char> {
    seq!['.']
}

/// `<ns>.<client>.echo`
pub open spec fn request_subject(client: Seq<char>) -> Seq<char> {
    namespace() + dot() + client + seq!['.', 'e', 'c', 'h', 'o']
}

/// `<ns>.cloud-master.<client>.<token>`
pub open spec fn response_subject(client: Seq<char>, token: Seq<char>) -> Seq<char> {
    namespace() + dot() + master_id() + dot() + client + dot() + token
}

/// `<subject>.echolet`
pub open spec fn echolet_subject(subject: Seq<char>) -> Seq<char> {
    subject + seq!['.', 'e', 'c', 'h', 'o', 'l', 'e', 't']
}

/// Subject on which an echo responder listens for requests.
pub fn make_request_subject(client: &String) -> (r: String)
    ensures
        r@ == request_subject(client@),
{
    let mut r = String::new();
    r.append("natssyncmsg.");
    r.append(client.as_str());
    r.append(".echo");
    proof {
        reveal_strlit("natssyncmsg.");
        reveal_strlit(".echo");
    }
    assert(r@ =~= request_subject(client@));
    r
}

/// Reply-to subject of one probe: scoped by the client and a unique token.
pub fn make_response_subject(client_id: &String, subject: &String) -> (r: String)
    ensures
        r@ == response_subject(client_id@, subject@),
{
    let mut r = String::new();
    r.append("natssyncmsg.cloud-master.");
    r.append(client_id.as_str());
    r.append(".");
    r.append(subject.as_str());
    proof {
        reveal_strlit("natssyncmsg.cloud-master.");
        reveal_strlit(".");
    }
    assert(r@ =~= response_subject(client_id@, subject@));
    r
}

/// Subject that responders actually publish their echo to.
pub fn make_echolet_response_subject(subject: &String) -> (r: String)
    ensures
        r@ == echolet_subject(subject@),
{
    let mut r = subject.clone();
    r.append(".echolet");
    proof {
        reveal_strlit(".echolet");
    }
    assert(r@ =~= echolet_subject(subject@));
    r
}

/// Client identifiers of a directory listing, in order, without the control plane's own.
pub open spec fn listed_clients(ids: Seq<String>) -> Seq<Seq<char>>
    decreases ids.len(),
{
    if ids.len() == 0 {
        Seq::empty()
    } else {
        let rest = listed_clients(ids.drop_last());
        if ids.last()@ == master_id() {
            rest
        } else {
            rest.push(ids.last()@)
        }
    }
}

/// Keeps the identifiers that name echo responders: every one but `cloud-master`.
pub fn directory_clients(ids: &Vec<String>) -> (r: Vec<String>)
    ensures
        r@.map_values(|c: String| c@) == listed_clients(ids@),
{
    let master = "cloud-master".to_owned();
    proof {
        reveal_strlit("cloud-master");
        assert(master@ =~= master_id());
    }
    let mut r: Vec<String> = Vec::new();
    let mut i: usize = 0;
    while i < ids.len()
        invariant
            i <= ids.len(),
            master@ == master_id(),
            r@.map_values(|c: String| c@) == listed_clients(ids@.subrange(0, i as int)),
        decreases ids.len() - i,
    {
        assert(ids@.subrange(0, i + 1).drop_last() =~= ids@.subrange(0, i as int));
        if ids[i] != master {
            let ghost before = r@;
            r.push(ids[i].clone());
            assert(r@.map_values(|c: String| c@) =~= before.map_values(|c: String| c@).push(ids[i as int]@));
        }
        i = i + 1;
    }
    assert(ids@.subrange(0, ids.len() as int) =~= ids@);
    r
}

} // verus!
