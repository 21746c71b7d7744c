use vstd::prelude::*;
use vstd::string::StringSliceAdditionalSpecFns;
use vstd::utf8::{encode_scalar, encode_utf8, is_char_boundary};
use crate::prompt::PromptGate;
use crate::render::{grid_rows, layout, lines, GridRow};
use crate::table::{CommandResponse, Row, Scalar};

verus! {

#[verifier::external_type_specification]
#[verifier::external_body]
pub struct ExPathBuf(std::path::PathBuf);

/// The network the service runs on.
#[derive(Clone, Copy, PartialEq, Eq, Debug)]
pub enum Net {
    Mainnet,
    Testnet,
}

/// The parameters of one command invocation.
pub struct CliCtx {
    rpc_addr: (String, u16),
    data_dir: std::path::PathBuf,
    json_output: bool,
    accept_any_prompt: bool,
    net: Option<Net>,
    interactive: bool,
}

/// What to write for a response.
pub enum Rendering {
    Nothing,
    /// `{"headers": ..., "values": ...}` as pretty JSON.
    JsonTable { headers: Vec<String>, values: Vec<Row> },
    /// A scalar as pretty JSON.
    Json(Scalar),
    /// A text as it is.
    Text(String),
    /// A value as YAML.
    Yaml(serde_json::Value),
    /// A grid: bold titles, then its lines.
    Grid { titles: Vec<String>, rows: Vec<GridRow> },
    /// The JSON form of the custom object that this response holds.
    CustomJson(CommandResponse),
    /// The printing of the custom object that this response holds.
    CustomText(CommandResponse),
}

impl CliCtx {
    pub fn new(
        rpc_addr: (String, u16),
        data_dir: std::path::PathBuf,
        json_output: bool,
        accept_any_prompt: bool,
        net: Option<Net>,
        interactive: bool,
    ) -> (r: CliCtx)
        ensures
            r.rpc_addr() == rpc_addr,
            r.data_path() == data_dir,
            r.json_output() == json_output,
            r.accept_any_prompt() == accept_any_prompt,
            r.net() == net,
            r.interactive() == interactive,
    {
        CliCtx { rpc_addr, data_dir, json_output, accept_any_prompt, net, interactive }
    }

    pub closed spec fn rpc_addr(&self) -> (String, u16) {
        self.rpc_addr
    }

    pub closed spec fn data_path(&self) -> std::path::PathBuf {
        self.data_dir
    }

    pub closed spec fn json_output(&self) -> bool {
        self.json_output
    }

    pub closed spec fn accept_any_prompt(&self) -> bool {
        self.accept_any_prompt
    }

    pub closed spec fn net(&self) -> Option<Net> {
        self.net
    }

    pub closed spec fn interactive(&self) -> bool {
        self.interactive
    }

    /// How the responses of this session are written: as JSON, or for people.
    pub fn is_json_output(&self) -> (r: bool)
        ensures
            r == self.json_output(),
    {
        self.json_output
    }

    /// The directory that holds the service's local state.
    pub fn data_dir(&self) -> (r: &std::path::PathBuf)
        ensures
            *r == self.data_path(),
    {
        &self.data_dir
    }

    pub fn address(&self) -> (r: (&str, u16))
        ensures
            r.0@ == self.rpc_addr().0@,
            r.1 == self.rpc_addr().1,
    {
        (self.rpc_addr.0.as_str(), self.rpc_addr.1)
    }

    pub fn network(&self) -> (r: Option<Net>)
        ensures
            r == self.net(),
    {
        self.net
    }

    /// A fresh negotiation for this session.
    pub fn negotiator(&self) -> (r: crate::negotiate::Negotiator)
        ensures
            r == crate::negotiate::Negotiator::fresh(self.accept_any_prompt()),
    {
        crate::negotiate::Negotiator::new(self.accept_any_prompt)
    }

    /// The confirmation gate of this session, before negotiation sets its bypass.
    pub fn prompt_gate(&self) -> (r: PromptGate)
        ensures
            r == (PromptGate { bypass: false, interactive: self.interactive() }),
    {
        PromptGate::new(self.interactive)
    }

    /// Whether this session's own confirmations are answered yes without asking.
    pub fn accepts_without_asking(&self) -> (r: bool)
        ensures
            r == (self.accept_any_prompt() && !self.interactive()),
    {
        self.accept_any_prompt && !self.interactive
    }

    /// What to write for `resp`: JSON in JSON mode, otherwise text, YAML or a grid.
    pub fn plan_output(&self, resp: CommandResponse) -> (r: Rendering)
        ensures
            resp is NoOutput ==> r is Nothing,
            resp is Object && self.json_output() ==> r == Rendering::Json(resp->Object_0),
            resp is Object && !self.json_output() ==> (match resp->Object_0 {
                Scalar::Text(s) => r == Rendering::Text(s),
                Scalar::Structured(v) => r == Rendering::Yaml(v),
            }),
            resp is Table && self.json_output() ==> (r matches Rendering::JsonTable { headers, values }
                && headers@ == resp->columns@ && values@ == resp->values@),
            resp is Table && !self.json_output() ==> (r matches Rendering::Grid { titles, rows }
                && titles@ == resp->columns@
                && lines(rows@) == layout(resp->columns@.len(), resp->values@, resp->summary@)),
            resp is FormattedObject ==> (if self.json_output() {
                r == Rendering::CustomJson(resp)
            } else {
                r == Rendering::CustomText(resp)
            }),
    {
        let custom = match &resp {
            CommandResponse::FormattedObject(_) => true,
            _ => false,
        };
        if custom {
            return if self.json_output {
                Rendering::CustomJson(resp)
            } else {
                Rendering::CustomText(resp)
            };
        }
        match resp {
            CommandResponse::NoOutput => Rendering::Nothing,
            CommandResponse::Table { columns, values, summary } => {
                if self.json_output {
                    Rendering::JsonTable { headers: columns, values }
                } else {
                    let rows = grid_rows(&columns, &values, &summary);
                    Rendering::Grid { titles: columns, rows }
                }
            },
            CommandResponse::Object(v) => {
                if self.json_output {
                    Rendering::Json(v)
                } else {
                    match v {
                        Scalar::Text(s) => Rendering::Text(s),
                        Scalar::Structured(v) => Rendering::Yaml(v),
                    }
                }
            },
            CommandResponse::FormattedObject(_) => {
                assert(false);
                Rendering::Nothing
            },
        }
    }
}

/// The directory, under the data directory, that holds the lock file of a network.
pub fn lock_dir_name(is_mainnet: bool) -> (r: &'static str)
    ensures
        r@ == (if is_mainnet { seq!['m', 'a', 'i', 'n', 'n', 'e', 't'] } else { seq!['r', 'i', 'n', 'k', 'e', 'b', 'y'] }),
{
    proof {
        reveal_strlit("mainnet");
        reveal_strlit("rinkeby");
    }
    if is_mainnet {
        "mainnet"
    } else {
        "rinkeby"
    }
}

/// The short form of a key, on its UTF-8 bytes: keys of 32 bytes or more keep their first
/// and last 16 bytes, joined by three dots.
pub open spec fn short_key(b: Seq<u8>, full: bool) -> Seq<u8> {
    if full || b.len() < 32 {
        b
    } else {
        b.subrange(0, 16) + seq![46u8, 46u8, 46u8] + b.subrange(b.len() - 16, b.len() as int)
    }
}

proof fn lemma_encode_concat(a: Seq<char>, b: Seq<char>)
    ensures
        encode_utf8(a + b) == encode_utf8(a) + encode_utf8(b),
    decreases a.len(),
{
    if a.len() == 0 {
        assert(a + b =~= b);
        assert(encode_utf8(a) + encode_utf8(b) =~= encode_utf8(b));
    } else {
        assert((a + b)[0] == a[0]);
        assert((a + b).drop_first() =~= a.drop_first() + b);
        lemma_encode_concat(a.drop_first(), b);
        let e = encode_scalar(a[0] as u32);
        assert(e + (encode_utf8(a.drop_first()) + encode_utf8(b)) =~= (e + encode_utf8(a.drop_first())) + encode_utf8(b));
    }
}

proof fn lemma_dots_bytes()
    ensures
        encode_utf8(seq!['.', '.', '.']) == seq![46u8, 46u8, 46u8],
{
    let d = seq!['.', '.', '.'];
    assert(('.' as u32) == 46);
    assert((46u32 & 0x7Fu32) as u8 == 46u8) by (bit_vector);
    assert(encode_scalar('.' as u32) =~= seq![46u8]);
    assert(d.drop_first() =~= seq!['.', '.']);
    assert(d.drop_first().drop_first() =~= seq!['.']);
    assert(d.drop_first().drop_first().drop_first() =~= Seq::<char>::empty());
    reveal_with_fuel(encode_utf8, 4);
    assert(encode_utf8(d) =~= seq![46u8, 46u8, 46u8]);
}

/// A key as shown: whole when `full`, shortened when long. The cuts fall between
/// characters (`requires`).
pub fn format_key(s: &str, full: bool) -> (r: String)
    requires
        full || s.spec_bytes().len() < 32 || (is_char_boundary(s.spec_bytes(), 16) && is_char_boundary(
            s.spec_bytes(),
            s.spec_bytes().len() - 16,
        )),
    ensures
        encode_utf8(r@) == short_key(s.spec_bytes(), full),
{
    let n = s.as_bytes().len();
    if full || n < 32 {
        return s.to_string();
    }
    let (head, _) = s.split_at(16);
    let (_, tail) = s.split_at(n - 16);
    let dots = "...";
    proof {
        reveal_strlit("...");
        assert(dots@ =~= seq!['.', '.', '.']);
        lemma_dots_bytes();
    }
    let r = head.to_string().concat(dots).concat(tail);
    proof {
        lemma_encode_concat(head@, dots@);
        lemma_encode_concat(head@ + dots@, tail@);
        assert(r@ == head@ + dots@ + tail@);
        assert(encode_utf8(r@) =~= short_key(s.spec_bytes(), full));
    }
    r
}

/// `None` when the two values are equal, else the first.
pub fn none_if_eq(v1: u64, v2: &u64) -> (r: Option<u64>)
    ensures
        r == (if v1 == *v2 { None } else { Some(v1) }),
{
    if v1 == *v2 {
        None
    } else {
        Some(v1)
    }
}

/// The integer resources of a hardware preset.
#[derive(Clone, Copy, PartialEq, Eq, Debug)]
pub struct CoreMemory {
    pub cpu_cores: u32,
    pub memory: u64,
}

/// A requested value outside the allowed range.
#[derive(Clone, Copy, PartialEq, Eq, Debug)]
pub enum UpdateError {
    CpuCores { min: u32, max: u32 },
    Memory { min: u64, max: u64 },
}

/// Applies the requested core count and memory to the pending preset, checking each
/// against the allowed range (cores first).
pub fn check_update(
    pending: CoreMemory,
    cpu_cores: Option<u32>,
    memory: Option<u64>,
    min: CoreMemory,
    max: CoreMemory,
) -> (r: Result<CoreMemory, UpdateError>)
    ensures
        (cpu_cores matches Some(c) && (c < min.cpu_cores || c > max.cpu_cores)) ==> r == Err::<CoreMemory, UpdateError>(
            UpdateError::CpuCores { min: min.cpu_cores, max: max.cpu_cores },
        ),
        !(cpu_cores matches Some(c) && (c < min.cpu_cores || c > max.cpu_cores))
            && (memory matches Some(m) && (m < min.memory || m > max.memory)) ==> r == Err::<CoreMemory, UpdateError>(
            UpdateError::Memory { min: min.memory, max: max.memory },
        ),
        !(cpu_cores matches Some(c) && (c < min.cpu_cores || c > max.cpu_cores))
            && !(memory matches Some(m) && (m < min.memory || m > max.memory)) ==> r == Ok::<CoreMemory, UpdateError>(
            CoreMemory {
                cpu_cores: match cpu_cores {
                    Some(c) => c,
                    None => pending.cpu_cores,
                },
                memory: match memory {
                    Some(m) => m,
                    None => pending.memory,
                },
            },
        ),
{
    let mut updates = pending;
    if let Some(c) = cpu_cores {
        updates.cpu_cores = c;
        if c < min.cpu_cores || c > max.cpu_cores {
            return Err(UpdateError::CpuCores { min: min.cpu_cores, max: max.cpu_cores });
        }
    }
    if let Some(m) = memory {
        updates.memory = m;
        if m < min.memory || m > max.memory {
            return Err(UpdateError::Memory { min: min.memory, max: max.memory });
        }
    }
    Ok(updates)
}

} // verus!
