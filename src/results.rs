use vstd::prelude::*;
use vstd::utf8::encode_utf8;
use crate::message::{decoded, TestMessage};
use crate::subjects::{make_request_subject, request_subject};

verus! {

/// uuid's `Uuid`, carried through as an opaque identifier of a batch flood.
#[verifier::external_type_specification]
#[verifier::external_body]
pub struct ExUuid(uuid::Uuid);

/// Relies on uuid's `Uuid::new_v4`: a random identifier, of which nothing is promised.
pub assume_specification[ uuid::Uuid::new_v4 ]() -> uuid::Uuid;

/// Outcome of one client's echo test.
#[derive(Clone, Debug)]
pub struct TestResults {
    pub client: String,
    pub success: bool,
    pub response_count: usize,
}

impl TestResults {
    pub fn new(client: String, success: bool, response_count: usize) -> (r: TestResults)
        ensures
            r.client@ == client@,
            r.success == success,
            r.response_count == response_count,
    {
        TestResults { client, success, response_count }
    }
}

/// What ended the wait for the single reply of an echo probe.
#[derive(Clone, Copy, Debug, PartialEq, Eq)]
pub enum EchoOutcome {
    Replied,
    Closed,
    TimedOut,
}

/// Result of an echo probe: one response and success exactly when a reply came in time.
pub fn echo_result(client: String, outcome: EchoOutcome) -> (r: TestResults)
    ensures
        r.client@ == client@,
        r.success == (outcome == EchoOutcome::Replied),
        r.response_count == (if outcome == EchoOutcome::Replied { 1usize } else { 0usize }),
{
    match outcome {
        EchoOutcome::Replied => TestResults::new(client, true, 1),
        _ => TestResults::new(client, false, 0),
    }
}

/// Why a batch flood request was refused before anything was sent.
#[derive(Clone, Copy, Debug, PartialEq, Eq)]
pub enum BatchError {
    NoClients,
    NoRepeats,
}

/// A batch flood: every client is sent `count` echo requests.
pub struct StressTest {
    pub id: uuid::Uuid,
    pub clients: Vec<String>,
    pub count: usize,
}

impl StressTest {
    pub open spec fn wf(&self) -> bool {
        self.clients.len() > 0 && self.count >= 1
    }

    pub fn new(clients: Vec<String>, count: usize) -> (r: StressTest)
        requires
            clients.len() > 0,
            count >= 1,
        ensures
            r.clients@ == clients@,
            r.count == count,
            r.wf(),
    {
        let id = uuid::Uuid::new_v4();
        StressTest { id, clients, count }
    }

    /// A batch flood as requested, refused when it names no client or asks for no repeat.
    pub fn from_request(clients: Vec<String>, test_count: usize) -> (r: Result<StressTest, BatchError>)
        ensures
            clients.len() == 0 ==> r matches Err(BatchError::NoClients),
            clients.len() > 0 && test_count == 0 ==> r matches Err(BatchError::NoRepeats),
            clients.len() > 0 && test_count >= 1 ==> (r matches Ok(t) && t.clients@ == clients@
                && t.count == test_count),
    {
        if clients.len() == 0 {
            Err(BatchError::NoClients)
        } else if test_count < 1 {
            Err(BatchError::NoRepeats)
        } else {
            Ok(StressTest::new(clients, test_count))
        }
    }
}

/// The echo request for repetition `j` (0-based) of `client`: its subject and a payload with
/// sequence number `j + 1`.
pub open spec fn is_flood_request(req: (String, Vec<u8>), client: Seq<char>, j: int) -> bool {
    &&& req.0@ == request_subject(client)
    &&& decoded(req.1@) is Some
    &&& decoded(req.1@).unwrap().0 == j + 1
    &&& decoded(req.1@).unwrap().3 == client
}

/// The requests of a batch flood, one list per client in the test's order, each holding
/// `count` requests with sequence numbers `1..=count`.
pub fn flood_requests(test: &StressTest) -> (r: Vec<Vec<(String, Vec<u8>)>>)
    ensures
        r.len() == test.clients.len(),
        forall|c: int|
            0 <= c < r.len() ==> (#[trigger] r[c]).len() == test.count && forall|j: int|
                0 <= j < test.count ==> is_flood_request(#[trigger] r[c][j], test.clients[c]@, j),
{
    let mut r: Vec<Vec<(String, Vec<u8>)>> = Vec::new();
    let mut c: usize = 0;
    while c < test.clients.len()
        invariant
            c <= test.clients.len(),
            r.len() == c,
            forall|k: int|
                0 <= k < r.len() ==> (#[trigger] r[k]).len() == test.count && forall|j: int|
                    0 <= j < test.count ==> is_flood_request(#[trigger] r[k][j], test.clients[k]@, j),
        decreases test.clients.len() - c,
    {
        let client = &test.clients[c];
        let mut reqs: Vec<(String, Vec<u8>)> = Vec::new();
        let mut j: usize = 0;
        while j < test.count
            invariant
                j <= test.count,
                reqs.len() == j,
                client@ == test.clients[c as int]@,
                forall|i: int| 0 <= i < j ==> is_flood_request(#[trigger] reqs[i], client@, i),
            decreases test.count - j,
        {
            let msg = TestMessage::new(j + 1, client);
            let payload = msg.to_bytes();
            proof {
                crate::message::lemma_round_trip(msg);
            }
            reqs.push((make_request_subject(client), payload));
            j = j + 1;
        }
        r.push(reqs);
        c = c + 1;
    }
    r
}

pub open spec fn lists_client(clients: Seq<String>, client: Seq<char>) -> bool {
    exists|k: int| 0 <= k < clients.len() && (#[trigger] clients[k])@ == client
}

pub open spec fn contains_client(results: Seq<TestResults>, client: Seq<char>) -> bool {
    exists|i: int| 0 <= i < results.len() && (#[trigger] results[i]).client@ == client
}

/// Gathers the echoed replies of a batch flood, per client, by the client named in each payload.
pub struct FloodCollector {
    pub results: Vec<TestResults>,
    pub count: usize,
    pub received: usize,
}

impl FloodCollector {
    /// One entry per distinct client, and no entry's count above what was received.
    pub open spec fn wf(&self) -> bool {
        &&& forall|i: int, k: int|
            0 <= i < k < self.results.len() ==> (#[trigger] self.results[i]).client@
                != (#[trigger] self.results[k]).client@
        &&& forall|i: int|
            0 <= i < self.results.len() ==> (#[trigger] self.results[i]).success == (
            self.results[i].response_count >= self.count)
        &&& forall|i: int|
            0 <= i < self.results.len() ==> (#[trigger] self.results[i]).response_count
                <= self.received
        &&& self.count >= 1
    }

    /// The number of replies that ends collection early.
    pub open spec fn expected(&self) -> int {
        self.count * self.results.len()
    }

    /// A collector for `clients`, each at zero responses and not yet successful.
    pub fn new(clients: &Vec<String>, count: usize) -> (r: FloodCollector)
        requires
            count >= 1,
        ensures
            r.wf(),
            r.count == count,
            r.received == 0,
            forall|i: int|
                0 <= i < r.results.len() ==> !(#[trigger] r.results[i]).success
                    && r.results[i].response_count == 0,
            forall|i: int| 0 <= i < clients.len() ==> contains_client(r.results@, #[trigger] clients[i]@),
            forall|i: int|
                0 <= i < r.results.len() ==> lists_client(clients@, (#[trigger] r.results[i]).client@),
    {
        let mut results: Vec<TestResults> = Vec::new();
        let mut c: usize = 0;
        while c < clients.len()
            invariant
                c <= clients.len(),
                count >= 1,
                forall|i: int, k: int|
                    0 <= i < k < results.len() ==> (#[trigger] results[i]).client@
                        != (#[trigger] results[k]).client@,
                forall|i: int|
                    0 <= i < results.len() ==> !(#[trigger] results[i]).success
                        && results[i].response_count == 0,
                forall|i: int| 0 <= i < c ==> contains_client(results@, #[trigger] clients[i]@),
                forall|i: int|
                    0 <= i < results.len() ==> lists_client(clients@, (#[trigger] results[i]).client@),
            decreases clients.len() - c,
        {
            let found = find_client(&results, &clients[c]);
            if found.is_none() {
                let ghost old_results = results@;
                results.push(TestResults::new(clients[c].clone(), false, 0));
                assert(results[results.len() - 1].client@ == clients[c as int]@);
                assert(lists_client(clients@, results[results.len() - 1].client@)) by {
                    assert(clients@[c as int]@ == results[results.len() - 1].client@);
                }
                assert forall|i: int| 0 <= i < results.len() implies lists_client(
                    clients@,
                    (#[trigger] results[i]).client@,
                ) by {
                    if i < old_results.len() {
                        assert(results[i] == old_results[i]);
                    }
                }
                assert forall|i: int| 0 <= i < c + 1 implies contains_client(
                    results@,
                    #[trigger] clients[i]@,
                ) by {
                    if i < c {
                        let w = choose|w: int|
                            0 <= w < old_results.len() && (#[trigger] old_results[w]).client@
                                == clients[i]@;
                        assert(results[w] == old_results[w]);
                    } else {
                        assert(results[results.len() - 1].client@ == clients[i]@);
                    }
                }
            }
            c = c + 1;
        }
        FloodCollector { results, count, received: 0 }
    }

    /// Records one reply. A payload that decodes and names a client of the test adds one
    /// response to that client, which succeeds once it reaches `count`; any other payload
    /// changes nothing.
    pub fn record(&mut self, payload: &[u8])
        requires
            old(self).wf(),
        ensures
            final(self).wf(),
            final(self).count == old(self).count,
            final(self).results.len() == old(self).results.len(),
            match decoded(payload@) {
                Some((_, _, _, c)) => if contains_client(old(self).results@, c) && old(
                    self,
                ).received < usize::MAX {
                    final(self).received == old(self).received + 1 && forall|i: int|
                        0 <= i < old(self).results.len() ==> if (#[trigger] old(
                            self,
                        ).results[i]).client@ == c {
                            final(self).results[i].client@ == c
                                && final(self).results[i].response_count == old(
                                self,
                            ).results[i].response_count + 1
                        } else {
                            final(self).results[i] == old(self).results[i]
                        }
                } else {
                    *final(self) == *old(self)
                },
                None => *final(self) == *old(self),
            },
    {
        match TestMessage::from_utf8(payload) {
            Ok(m) => {
                if self.received == usize::MAX {
                    return;
                }
                match find_client(&self.results, &m.client) {
                    Some(i) => {
                        let n = self.results[i].response_count;
                        self.results.set(
                            i,
                            TestResults::new(
                                m.client,
                                n + 1 >= self.count,
                                n + 1,
                            ),
                        );
                        self.received = self.received + 1;
                    },
                    None => {},
                }
            },
            Err(_) => {},
        }
    }

    /// Whether every expected reply has come and every client succeeded.
    pub fn is_done(&self) -> (r: bool)
        ensures
            r == (self.received >= self.expected() && forall|i: int|
                0 <= i < self.results.len() ==> (#[trigger] self.results[i]).success),
    {
        match self.count.checked_mul(self.results.len()) {
            Some(expected) => {
                if self.received < expected {
                    return false;
                }
            },
            None => {
                return false;
            },
        }
        let mut i: usize = 0;
        while i < self.results.len()
            invariant
                i <= self.results.len(),
                forall|k: int| 0 <= k < i ==> (#[trigger] self.results[k]).success,
            decreases self.results.len() - i,
        {
            if !self.results[i].success {
                return false;
            }
            i = i + 1;
        }
        true
    }
}

/// Index of the entry for `client`, if there is one.
fn find_client(results: &Vec<TestResults>, client: &String) -> (r: Option<usize>)
    ensures
        match r {
            Some(i) => i < results.len() && results[i as int].client@ == client@,
            None => !contains_client(results@, client@),
        },
{
    let mut i: usize = 0;
    while i < results.len()
        invariant
            i <= results.len(),
            forall|k: int| 0 <= k < i ==> (#[trigger] results[k]).client@ != client@,
        decreases results.len() - i,
    {
        if results[i].client == *client {
            return Some(i);
        }
        i = i + 1;
    }
    None
}

} // verus!
