//! Framing of Elasticsearch bulk requests, accounting of their responses,
//! and the retry policy for failed requests.

use crate::json::{json_error_text, json_object_text, object_to_json, JsonRecord};
use crate::types::{BulkResponse, BulkResponseItem, BulkResponseItemDetail, EsConfig};
use vstd::prelude::*;

verus! {

/// Endpoint of bulk requests on a server.
pub open spec fn bulk_url_text(address: Seq<char>) -> Seq<char> {
    address + "/_bulk"@
}

/// URL of the bulk endpoint: the address followed by `/_bulk`.
pub fn bulk_url(address: &str) -> (url: String)
    ensures
        url@ == bulk_url_text(address@),
{
    let mut url = String::from_str(address);
    url.append("/_bulk");
    url
}

/// Whether an HTTP status code means success (2xx).
pub fn http_status_ok(code: u16) -> (b: bool)
    ensures
        b == is_success_status(code),
{
    200 <= code && code < 300
}

/// The error for a bulk request answered with a status other than 2xx:
/// the status as shown and the response body.
pub fn bulk_http_error(status: &str, body: &str) -> (m: String)
    ensures
        m@ == "HTTP 错误 "@ + status@ + ": "@ + body@,
{
    let mut m = String::from_str("HTTP 错误 ");
    m.append(status);
    m.append(": ");
    m.append(body);
    m
}

/// The error for a connection test answered with a status other than 2xx.
pub fn connection_http_error(status: &str) -> (m: String)
    ensures
        m@ == "连接失败: HTTP "@ + status@,
{
    let mut m = String::from_str("连接失败: HTTP ");
    m.append(status);
    m
}

/// Credentials for basic authentication: both user name and password, or none.
pub fn basic_auth(config: &EsConfig) -> (r: Option<(String, String)>)
    ensures
        match (config.username, config.password) {
            (Some(u), Some(p)) => r matches Some((ru, rp)) && ru@ == u@ && rp@ == p@,
            _ => r is None,
        },
{
    match (&config.username, &config.password) {
        (Some(u), Some(p)) => Some((u.clone(), p.clone())),
        _ => None,
    }
}

/// The action line that sends the following document to `index`:
/// `{"index":{"_index":...}}`.
pub open spec fn action_line(index: Seq<char>) -> Seq<char> {
    "{\"index\":"@ + json_object_text(seq![("_index"@, index)]) + "}"@
}

/// Bulk request body: for each document its action line and its JSON text,
/// each followed by a newline.
pub open spec fn bulk_body(index: Seq<char>, docs: Seq<Seq<(Seq<char>, Seq<char>)>>) -> Seq<char>
    decreases docs.len(),
{
    if docs.len() == 0 {
        Seq::empty()
    } else {
        bulk_body(index, docs.drop_last()) + action_line(index) + "\n"@ + json_object_text(
            docs.last(),
        ) + "\n"@
    }
}

/// Pairs of each document.
pub open spec fn docs_view(docs: Seq<JsonRecord>) -> Seq<Seq<(Seq<char>, Seq<char>)>> {
    docs.map_values(|d: JsonRecord| d.pairs())
}

/// Builds the newline-delimited body of a bulk request that indexes every
/// document into `index_name`. Serializing maps of strings never fails, so
/// this always succeeds.
pub fn bulk_request_body(index_name: &str, documents: &Vec<JsonRecord>) -> (r: Result<
    String,
    String,
>)
    ensures
        r matches Ok(body) && body@ == bulk_body(index_name@, docs_view(documents@)),
{
    let mut body = String::new();
    let mut meta: Vec<(String, String)> = Vec::new();
    meta.push((String::from_str("_index"), String::from_str(index_name)));
    let n = documents.len();
    for i in 0..n
        invariant
            n == documents@.len(),
            meta@.len() == 1,
            meta@[0].0@ == "_index"@,
            meta@[0].1@ == index_name@,
            body@ == bulk_body(index_name@, docs_view(documents@).take(i as int)),
    {
        let action = match object_to_json(&meta) {
            Ok(t) => t,
            Err(e) => {
                let mut m = String::from_str("序列化索引操作失败: ");
                m.append(json_error_text(&e).as_str());
                return Err(m);
            },
        };
        let doc = match object_to_json(&documents[i].fields) {
            Ok(t) => t,
            Err(e) => {
                let mut m = String::from_str("序列化文档失败: ");
                m.append(json_error_text(&e).as_str());
                return Err(m);
            },
        };
        let ghost before = body@;
        body.append("{\"index\":");
        body.append(action.as_str());
        body.append("}");
        body.append("\n");
        body.append(doc.as_str());
        body.append("\n");
        proof {
            assert(crate::json::pairs_view(meta@) =~= seq![("_index"@, index_name@)]);
            assert(docs_view(documents@).take(i + 1).drop_last() =~= docs_view(documents@).take(
                i as int,
            ));
            assert(body@ =~= bulk_body(index_name@, docs_view(documents@).take(i + 1)));
        }
    }
    proof {
        assert(docs_view(documents@).take(n as int) =~= docs_view(documents@));
    }
    Ok(body)
}

/// Counts of a bulk request's outcome.
#[derive(Debug)]
pub struct BulkResult {
    pub success: usize,
    pub failed: usize,
    pub errors: Vec<String>,
}

/// The outcome that counts for an item: its `index`, else `create`, else `update` entry.
pub open spec fn item_detail(item: BulkResponseItem) -> Option<BulkResponseItemDetail> {
    match item.index {
        Some(d) => Some(d),
        None => match item.create {
            Some(d) => Some(d),
            None => item.update,
        },
    }
}

/// Whether an HTTP status is in the 2xx range.
pub open spec fn is_success_status(status: u16) -> bool {
    200 <= status < 300
}

/// Items whose counted outcome has a 2xx status.
pub open spec fn succeeded_items(items: Seq<BulkResponseItem>) -> nat
    decreases items.len(),
{
    if items.len() == 0 {
        0
    } else {
        succeeded_items(items.drop_last()) + match item_detail(items.last()) {
            Some(d) => if is_success_status(d.status) {
                1nat
            } else {
                0nat
            },
            None => 0nat,
        }
    }
}

/// Items whose counted outcome has another status.
pub open spec fn failed_items(items: Seq<BulkResponseItem>) -> nat
    decreases items.len(),
{
    if items.len() == 0 {
        0
    } else {
        failed_items(items.drop_last()) + match item_detail(items.last()) {
            Some(d) => if is_success_status(d.status) {
                0nat
            } else {
                1nat
            },
            None => 0nat,
        }
    }
}

/// `type: reason` for each failed item that carries an error, in order.
pub open spec fn item_errors(items: Seq<BulkResponseItem>) -> Seq<Seq<char>>
    decreases items.len(),
{
    if items.len() == 0 {
        Seq::empty()
    } else {
        let init = item_errors(items.drop_last());
        match item_detail(items.last()) {
            Some(d) => if !is_success_status(d.status) && d.error is Some {
                init.push(d.error.unwrap().error_type@ + ": "@ + d.error.unwrap().reason@)
            } else {
                init
            },
            None => init,
        }
    }
}

/// A response never counts more successes and failures together than it has items.
pub proof fn lemma_counts_bounded(items: Seq<BulkResponseItem>)
    ensures
        succeeded_items(items) + failed_items(items) <= items.len(),
    decreases items.len(),
{
    if items.len() > 0 {
        lemma_counts_bounded(items.drop_last());
    }
}

/// Counts the items of a bulk response: an item counts by its `index`,
/// `create` or `update` outcome (the first present); a 2xx status is a
/// success, any other a failure, whose error (if given) is listed as
/// `type: reason`. Items with none of the three are not counted.
pub fn summarize_bulk_response(response: &BulkResponse) -> (r: BulkResult)
    ensures
        r.success == succeeded_items(response.items@),
        r.failed == failed_items(response.items@),
        r.errors@.map_values(|e: String| e@) == item_errors(response.items@),
{
    let mut success: usize = 0;
    let mut failed: usize = 0;
    let mut errors: Vec<String> = Vec::new();
    let items = &response.items;
    let n = items.len();
    for i in 0..n
        invariant
            n == items@.len(),
            success == succeeded_items(items@.take(i as int)),
            failed == failed_items(items@.take(i as int)),
            errors@.map_values(|e: String| e@) == item_errors(items@.take(i as int)),
            success + failed <= i,
    {
        proof {
            assert(items@.take(i + 1).drop_last() =~= items@.take(i as int));
        }
        let item = &items[i];
        let detail: Option<&BulkResponseItemDetail> = match &item.index {
            Some(d) => Some(d),
            None => match &item.create {
                Some(d) => Some(d),
                None => match &item.update {
                    Some(d) => Some(d),
                    None => None,
                },
            },
        };
        match detail {
            Some(d) => {
                if d.status >= 200 && d.status < 300 {
                    success = success + 1;
                } else {
                    failed = failed + 1;
                    match &d.error {
                        Some(e) => {
                            let mut text = e.error_type.clone();
                            text.append(": ");
                            text.append(e.reason.as_str());
                            let ghost before = errors@;
                            errors.push(text);
                            proof {
                                assert(errors@.map_values(|e: String| e@) =~= before.map_values(
                                    |e: String| e@,
                                ).push(text@));
                            }
                        },
                        None => {},
                    }
                }
            },
            None => {},
        }
    }
    proof {
        assert(items@.take(n as int) =~= items@);
    }
    BulkResult { success, failed, errors }
}

/// Retries allowed after a failed bulk request.
pub const MAX_BULK_RETRIES: u32 = 3;

/// `2^n`.
pub open spec fn pow2(n: nat) -> nat
    decreases n,
{
    if n == 0 {
        1
    } else {
        2 * pow2((n - 1) as nat)
    }
}

/// The three retries wait one, two and four seconds.
pub proof fn lemma_retry_delays()
    ensures
        pow2(0) == 1,
        pow2(1) == 2,
        pow2(2) == 4,
{
    reveal_with_fuel(pow2, 4);
}

/// What to do after a failed bulk request.
#[derive(Debug)]
pub enum RetryStep {
    /// Wait this many seconds, then send the request again.
    Retry { delay_secs: u64 },
    /// Stop and report this error.
    GiveUp { message: String },
}

/// Retry state of one bulk request: retries so far and the next delay,
/// which starts at one second and doubles after each retry.
pub struct BulkRetry {
    retry_count: u32,
    delay_secs: u64,
}

/// The error reported once all retries have failed.
pub open spec fn give_up_message(error: Seq<char>) -> Seq<char> {
    "Bulk 请求失败（重试 3 次后）: "@ + error
}

impl BulkRetry {
    /// Retries made so far.
    pub closed spec fn retries(&self) -> nat {
        self.retry_count as nat
    }

    /// Seconds to wait before the next retry.
    pub closed spec fn next_delay(&self) -> nat {
        self.delay_secs as nat
    }

    /// The policy's invariant: at most three retries, and the next delay is
    /// two to the power of the retries made.
    pub open spec fn wf(&self) -> bool {
        self.retries() <= 3 && self.next_delay() == pow2(self.retries())
    }

    /// Retries made so far.
    pub fn retries_made(&self) -> (n: u32)
        ensures
            n == self.retries(),
    {
        self.retry_count
    }

    /// No retry made yet; the first waits one second.
    pub fn new() -> (r: Self)
        ensures
            r.wf(),
            r.retries() == 0,
            r.next_delay() == 1,
    {
        BulkRetry { retry_count: 0, delay_secs: 1 }
    }

    /// Decides after a failure with message `error`: after three retries,
    /// give up with the error; otherwise wait `2^retries` seconds and retry.
    pub fn on_failure(&mut self, error: &str) -> (step: RetryStep)
        requires
            old(self).wf(),
        ensures
            final(self).wf(),
            old(self).retries() >= 3 ==> (step matches RetryStep::GiveUp { message }
                && message@ == give_up_message(error@)) && *final(self) == *old(self),
            old(self).retries() < 3 ==> step == (RetryStep::Retry {
                delay_secs: pow2(old(self).retries()) as u64,
            }) && final(self).retries() == old(self).retries() + 1,
    {
        if self.retry_count >= MAX_BULK_RETRIES {
            let mut message = String::from_str("Bulk 请求失败（重试 3 次后）: ");
            message.append(error);
            return RetryStep::GiveUp { message };
        }
        let delay = self.delay_secs;
        proof {
            reveal_with_fuel(pow2, 4);
            assert(delay <= 4);
        }
        self.delay_secs = self.delay_secs * 2;
        self.retry_count = self.retry_count + 1;
        RetryStep::Retry { delay_secs: delay }
    }
}

} // verus!
