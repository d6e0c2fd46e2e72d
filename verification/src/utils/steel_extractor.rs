//! Traction results read from the steel machines, and how the answers of
//! the machines are combined.

use vstd::prelude::*;
use vstd::string::*;
use crate::errors::{LinkError, LinkResult};
use crate::measure::{Reading, ReadingView};
use crate::utils::messages::{joined, MessageView, ResponseMessage, Severity};
use crate::text::{decimal, decimal_string, text_equal};

verus! {

/// The traction test read from the machine.
///
/// Measurements are single-precision numbers carried as their bits (see
/// `crate::measure`); the diameter also keeps how it is written.
/// Timestamps are whole seconds since the Unix epoch.
pub struct TractionResult {
    pub id: String,
    pub diameter: Reading,
    pub side_a: u32,
    pub side_b: u32,
    pub profile: Option<String>,
    pub quality: Option<String>,
    pub mass: u32,
    pub length: u32,
    pub fy: u32,
    pub ft: u32,
    pub f02: bool,
    pub ty: u8,
    pub timestamp: i64,
    pub machine: String,
}

/// A traction result with its texts seen as character sequences.
pub struct TractionView {
    pub id: Seq<char>,
    pub diameter: ReadingView,
    pub side_a: u32,
    pub side_b: u32,
    pub profile: Option<Seq<char>>,
    pub quality: Option<Seq<char>>,
    pub mass: u32,
    pub length: u32,
    pub fy: u32,
    pub ft: u32,
    pub f02: bool,
    pub ty: u8,
    pub timestamp: i64,
    pub machine: Seq<char>,
}

/// The characters of an optional text.
pub open spec fn opt_text(o: Option<String>) -> Option<Seq<char>> {
    match o {
        Some(s) => Some(s@),
        None => None,
    }
}

impl View for TractionResult {
    type V = TractionView;

    open spec fn view(&self) -> TractionView {
        TractionView {
            id: self.id@,
            diameter: self.diameter@,
            side_a: self.side_a,
            side_b: self.side_b,
            profile: opt_text(self.profile),
            quality: opt_text(self.quality),
            mass: self.mass,
            length: self.length,
            fy: self.fy,
            ft: self.ft,
            f02: self.f02,
            ty: self.ty,
            timestamp: self.timestamp,
            machine: self.machine@,
        }
    }
}

/// A copy of an optional text.
pub fn copy_opt_text(o: &Option<String>) -> (r: Option<String>)
    ensures
        r == *o,
{
    match o {
        Some(s) => Some(s.clone()),
        None => None,
    }
}

impl Clone for TractionResult {
    fn clone(&self) -> (r: Self)
        ensures
            r == *self,
    {
        TractionResult {
            id: self.id.clone(),
            diameter: self.diameter.clone(),
            side_a: self.side_a,
            side_b: self.side_b,
            profile: copy_opt_text(&self.profile),
            quality: copy_opt_text(&self.quality),
            mass: self.mass,
            length: self.length,
            fy: self.fy,
            ft: self.ft,
            f02: self.f02,
            ty: self.ty,
            timestamp: self.timestamp,
            machine: self.machine.clone(),
        }
    }
}

/// The machine recorded for results that do not name one.
pub fn controls() -> (r: String)
    ensures
        r@ == "controls"@,
{
    String::from_str("controls")
}

/// What one machine answered: its results and a message about them.
pub type MachineRead = LinkResult<(Vec<TractionResult>, ResponseMessage)>;

/// The results of the machines read so far, in order.
pub open spec fn rows_of_reads(reads: Seq<MachineRead>) -> Seq<TractionResult>
    decreases reads.len(),
{
    if reads.len() == 0 {
        seq![]
    } else {
        rows_of_reads(reads.drop_last()) + reads.last()->Ok_0.0@
    }
}

/// The messages of the machines read so far, joined in order.
pub open spec fn message_of_reads(reads: Seq<MachineRead>) -> MessageView
    decreases reads.len(),
{
    if reads.len() <= 1 {
        reads[0]->Ok_0.1@
    } else {
        joined(message_of_reads(reads.drop_last()), reads.last()->Ok_0.1@)
    }
}

/// Every machine answered.
pub open spec fn all_answered(reads: Seq<MachineRead>) -> bool {
    forall|i: int| 0 <= i < reads.len() ==> reads[i] is Ok
}

/// The machine at `k` is the first that failed.
pub open spec fn first_failure_at(reads: Seq<MachineRead>, k: int) -> bool {
    &&& 0 <= k < reads.len()
    &&& reads[k] is Err
    &&& forall|j: int| 0 <= j < k ==> reads[j] is Ok
}

/// Joins the answers of the machines, in order: the results one after the
/// other, and the messages joined. The first failure, if any, is the answer.
pub fn join_machine_reads(reads: Vec<MachineRead>) -> (r: MachineRead)
    requires
        reads@.len() > 0,
    ensures
        all_answered(reads@) ==> (r is Ok && r->Ok_0.0@ == rows_of_reads(reads@) && r->Ok_0.1@
            == message_of_reads(reads@)),
        !all_answered(reads@) ==> exists|k: int|
            first_failure_at(reads@, k) && r == Err::<(Vec<TractionResult>, ResponseMessage), LinkError>(
                reads@[k]->Err_0,
            ),
{
    let ghost orig = reads@;
    let n = reads.len();
    let mut reads = reads;
    let mut final_vec: Vec<TractionResult> = Vec::new();
    let mut final_message: Option<ResponseMessage> = None;
    let mut i: usize = 0;
    #[verifier::loop_isolation(false)]
    while i < n
        invariant
            n == orig.len(),
            n > 0,
            i <= n,
            reads@ == orig.subrange(i as int, n as int),
            forall|j: int| 0 <= j < i ==> orig[j] is Ok,
            final_vec@ == rows_of_reads(orig.take(i as int)),
            i == 0 ==> final_message is None,
            i > 0 ==> final_message is Some && final_message->0@ == message_of_reads(
                orig.take(i as int),
            ),
        decreases n - i,
    {
        assert(orig.take(i + 1).drop_last() =~= orig.take(i as int));
        let read = reads.remove(0);
        assert(read == orig[i as int]);
        match read {
            Ok((mut rows, new_message)) => {
                final_vec.append(&mut rows);
                final_message =
                    match final_message {
                        None => Some(new_message),
                        Some(message) => Some(message.join(new_message)),
                    };
            },
            Err(e) => {
                proof {
                    assert(first_failure_at(orig, i as int));
                }
                return Err(e);
            },
        }
        assert(reads@ =~= orig.subrange(i + 1, n as int));
        i = i + 1;
    }
    assert(orig.take(n as int) =~= orig);
    Ok((final_vec, final_message.unwrap()))
}

/// The message for a machine that could not be reached.
pub open spec fn unreachable_text(name: Seq<char>) -> Seq<char> {
    "Impossibile connettersi a "@ + name + ", potrebbero mancare dei risultati"@
}

/// The message for the results found on a machine.
pub open spec fn found_text(count: nat, name: Seq<char>) -> Seq<char> {
    "Trovati "@ + decimal(count) + " risultati su "@ + name
}

/// The message for a machine that holds no results for the request.
pub open spec fn none_found_text(name: Seq<char>) -> Seq<char> {
    "Nessun risultato trovato su "@ + name
}

/// The answer for a machine that could not be reached: no results and an
/// error saying that some may be missing.
pub fn unreachable_machine(name: &str) -> (r: (Vec<TractionResult>, ResponseMessage))
    ensures
        r.0@ == Seq::<TractionResult>::empty(),
        r.1@ == (MessageView { text: unreachable_text(name@), severity: Severity::Error }),
{
    let mut text = String::from_str("Impossibile connettersi a ");
    text.append(name);
    text.append(", potrebbero mancare dei risultati");
    (Vec::new(), ResponseMessage::new_error(text))
}

/// The answer for a machine once it replied to the request: its results
/// with a count of them; no results when it answered with an error status;
/// any other failure is passed on.
pub fn read_machine_outcome(name: &str, response: LinkResult<Vec<TractionResult>>) -> (r: MachineRead)
    ensures
        response is Ok ==> r is Ok && r->Ok_0.0@ == response->Ok_0@ && r->Ok_0.1@ == (MessageView {
            text: found_text(response->Ok_0@.len(), name@),
            severity: Severity::Info,
        }),
        response matches Err(LinkError::UpstreamStatus { .. }) ==> r is Ok && r->Ok_0.0@.len() == 0
            && r->Ok_0.1@ == (MessageView { text: none_found_text(name@), severity: Severity::Info }),
        (response is Err && !(response matches Err(LinkError::UpstreamStatus { .. }))) ==> r is Err
            && r->Err_0 == response->Err_0,
{
    match response {
        Ok(results) => {
            let mut text = String::from_str("Trovati ");
            let count = decimal_string(results.len());
            text.append(count.as_str());
            text.append(" risultati su ");
            text.append(name);
            Ok((results, ResponseMessage::new_info(text)))
        },
        Err(LinkError::UpstreamStatus { .. }) => {
            let mut text = String::from_str("Nessun risultato trovato su ");
            text.append(name);
            Ok((Vec::new(), ResponseMessage::new_info(text)))
        },
        Err(e) => Err(e),
    }
}

/// Whether a machine's health reply says it is working: it answered with
/// the status `"ok"`.
pub fn connection_ok(reply: &LinkResult<String>) -> (r: bool)
    ensures
        r == (reply is Ok && reply->Ok_0@ == "ok"@),
{
    match reply {
        Ok(status) => text_equal(status.as_str(), "ok"),
        Err(_) => false,
    }
}

} // verus!
