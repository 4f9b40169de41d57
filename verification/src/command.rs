//! The textual command encoder: one newline-terminated line per command, with
//! an optional `(id) ` prefix. Each command states the exact bytes its
//! encoding produces.
use vstd::prelude::*;
use vstd::string::StringSliceAdditionalSpecFns;
use vstd::utf8::encode_utf8;

verus! {

/// The UTF-8 bytes of an owned string.
pub open spec fn string_bytes(s: String) -> Seq<u8> {
    encode_utf8(s@)
}

/// The `(id) ` prefix, present exactly when an id is set.
pub open spec fn id_prefix(id: Option<String>) -> Seq<u8> {
    match id {
        Some(s) => seq!['(' as u8] + string_bytes(s) + seq![')' as u8, ' ' as u8],
        None => Seq::empty(),
    }
}

/// A password with every comma escaped as `\,`.
pub open spec fn escaped(s: Seq<u8>) -> Seq<u8>
    decreases s.len(),
{
    if s.len() == 0 {
        Seq::empty()
    } else {
        escaped(s.drop_last()) + (if s.last() == ',' as u8 {
            seq!['\\' as u8, ',' as u8]
        } else {
            seq![s.last()]
        })
    }
}

/// Strings joined with commas.
pub open spec fn join_comma(items: Seq<String>) -> Seq<u8>
    decreases items.len(),
{
    if items.len() == 0 {
        Seq::empty()
    } else if items.len() == 1 {
        string_bytes(items[0])
    } else {
        join_comma(items.drop_last()) + seq![',' as u8] + string_bytes(items.last())
    }
}

/// Strings each preceded by one space.
pub open spec fn spaced(items: Seq<String>) -> Seq<u8>
    decreases items.len(),
{
    if items.len() == 0 {
        Seq::empty()
    } else {
        spaced(items.drop_last()) + seq![' ' as u8] + string_bytes(items.last())
    }
}

/// Appends the bytes of a string slice.
fn push_str(out: &mut Vec<u8>, s: &str)
    ensures
        final(out)@ == old(out)@ + s.spec_bytes(),
{
    let b = s.as_bytes();
    let mut i: usize = 0;
    while i < b.len()
        invariant
            i <= b@.len(),
            b@ == s.spec_bytes(),
            out@ == old(out)@ + b@.subrange(0, i as int),
        decreases b@.len() - i,
    {
        out.push(b[i]);
        proof {
            assert(old(out)@ + b@.subrange(0, i as int) + seq![b@[i as int]] =~= old(out)@
                + b@.subrange(0, i + 1));
        }
        i = i + 1;
    }
    proof {
        assert(old(out)@ + b@.subrange(0, b@.len() as int) =~= old(out)@ + s.spec_bytes());
    }
}

/// Appends the bytes of an owned string.
fn push_string(out: &mut Vec<u8>, s: &String)
    ensures
        final(out)@ == old(out)@ + string_bytes(*s),
{
    push_str(out, s.as_str());
}

/// Appends one byte.
fn push_byte(out: &mut Vec<u8>, b: u8)
    ensures
        final(out)@ == old(out)@ + seq![b],
{
    out.push(b);
}

/// Appends the `(id) ` prefix when an id is set.
fn push_id(out: &mut Vec<u8>, id: &Option<String>)
    ensures
        final(out)@ == old(out)@ + id_prefix(*id),
{
    match id {
        Some(s) => {
            push_byte(out, '(' as u8);
            push_string(out, s);
            push_byte(out, ')' as u8);
            push_byte(out, ' ' as u8);
            proof {
                assert(out@ =~= old(out)@ + id_prefix(*id));
            }
        },
        None => {
        },
    }
}

/// Appends a password, commas escaped.
fn push_escaped(out: &mut Vec<u8>, s: &String)
    ensures
        final(out)@ == old(out)@ + escaped(string_bytes(*s)),
{
    let b = s.as_str().as_bytes();
    let mut i: usize = 0;
    while i < b.len()
        invariant
            i <= b@.len(),
            b@ == string_bytes(*s),
            out@ == old(out)@ + escaped(b@.subrange(0, i as int)),
        decreases b@.len() - i,
    {
        proof {
            assert(b@.subrange(0, i + 1).drop_last() =~= b@.subrange(0, i as int));
            assert(b@.subrange(0, i + 1).last() == b@[i as int]);
        }
        if b[i] == 44 {
            out.push(92);
            out.push(44);
        } else {
            out.push(b[i]);
        }
        i = i + 1;
    }
    proof {
        assert(b@.subrange(0, b@.len() as int) =~= b@);
    }
}

/// Appends the strings joined with commas.
fn push_join_comma(out: &mut Vec<u8>, items: &Vec<String>)
    ensures
        final(out)@ == old(out)@ + join_comma(items@),
{
    let mut i: usize = 0;
    while i < items.len()
        invariant
            i <= items@.len(),
            out@ == old(out)@ + join_comma(items@.subrange(0, i as int)),
        decreases items@.len() - i,
    {
        proof {
            assert(items@.subrange(0, i + 1).drop_last() =~= items@.subrange(0, i as int));
            assert(items@.subrange(0, i + 1).last() == items@[i as int]);
        }
        if i != 0 {
            push_byte(out, ',' as u8);
        }
        push_string(out, &items[i]);
        i = i + 1;
    }
    proof {
        assert(items@.subrange(0, items@.len() as int) =~= items@);
    }
}

/// Appends the strings, one space before each.
fn push_spaced(out: &mut Vec<u8>, items: &Vec<String>)
    ensures
        final(out)@ == old(out)@ + spaced(items@),
{
    let mut i: usize = 0;
    while i < items.len()
        invariant
            i <= items@.len(),
            out@ == old(out)@ + spaced(items@.subrange(0, i as int)),
        decreases items@.len() - i,
    {
        proof {
            assert(items@.subrange(0, i + 1).drop_last() =~= items@.subrange(0, i as int));
            assert(items@.subrange(0, i + 1).last() == items@[i as int]);
        }
        push_byte(out, ' ' as u8);
        push_string(out, &items[i]);
        i = i + 1;
    }
    proof {
        assert(items@.subrange(0, items@.len() as int) =~= items@);
    }
}

/// A command of the relay protocol: it encodes to one newline-terminated
/// line, may carry an id, and declares whether the server answers it.
pub trait Command: Sized {
    /// The exact bytes this command writes on the wire.
    spec fn encoded(&self) -> Seq<u8>;

    /// The id a reply to this command carries, if a reply comes.
    spec fn reply_id(&self) -> Option<Seq<char>>;

    /// Whether the server answers this command with a message.
    spec fn expects_reply(&self) -> bool;

    /// The id used to correlate the reply.
    fn get_id(&self) -> (r: Option<String>)
        ensures
            r.deep_view() == self.reply_id(),
    ;

    /// Replaces the command's id.
    fn set_id(&mut self, id: Option<String>);

    /// Writes the command's wire line.
    fn encode(&self) -> (r: Vec<u8>)
        ensures
            r@ == self.encoded(),
    ;

    /// Whether a reply is expected.
    fn has_response(&self) -> (r: bool)
        ensures
            r == self.expects_reply(),
    ;
}

/// Encoding is deterministic: the line a command writes is fixed by the
/// command value alone, so equal commands encode to byte-identical lines.
pub proof fn lemma_encode_deterministic<C: Command>(a: &C, b: &C)
    requires
        a == b,
    ensures
        a.encoded() == b.encoded(),
{
}

/// The command verbs.
#[derive(Clone, Copy, PartialEq, Eq, Structural, Debug)]
pub enum CommandType {
    Init,
    Hdata,
    Info,
    Infolist,
    Nicklist,
    Input,
    Sync,
    Desync,
    Quit,
}

impl CommandType {
    /// The verb's wire spelling.
    pub fn as_str(&self) -> (r: &str)
        ensures
            r@ == match self {
                CommandType::Init => "init"@,
                CommandType::Hdata => "hdata"@,
                CommandType::Info => "info"@,
                CommandType::Infolist => "infolist"@,
                CommandType::Nicklist => "nicklist"@,
                CommandType::Input => "input"@,
                CommandType::Sync => "sync"@,
                CommandType::Desync => "desync"@,
                CommandType::Quit => "quit"@,
            },
    {
        match self {
            CommandType::Init => "init",
            CommandType::Hdata => "hdata",
            CommandType::Info => "info",
            CommandType::Infolist => "infolist",
            CommandType::Nicklist => "nicklist",
            CommandType::Input => "input",
            CommandType::Sync => "sync",
            CommandType::Desync => "desync",
            CommandType::Quit => "quit",
        }
    }
}

/// The transport compression the `init` command may ask for.
#[derive(Clone, Copy, PartialEq, Eq, Structural, Debug)]
pub enum CompressionType {
    Off,
    Zlib,
}

/// The wire spelling of a compression choice.
pub open spec fn compression_bytes(c: CompressionType) -> Seq<u8> {
    match c {
        CompressionType::Off => "none".spec_bytes(),
        CompressionType::Zlib => "zlib".spec_bytes(),
    }
}

impl CompressionType {
    /// The wire spelling.
    pub fn as_str(self) -> (r: &'static str)
        ensures
            r.spec_bytes() == compression_bytes(self),
    {
        match self {
            CompressionType::Off => "none",
            CompressionType::Zlib => "zlib",
        }
    }
}

/// Opens the session: `init [password=…][,compression=…]`.
pub struct InitCommand {
    pub id: Option<String>,
    pub password: Option<String>,
    pub compression: Option<CompressionType>,
}

impl InitCommand {
    /// A new `init` command.
    pub fn new(id: Option<String>, password: Option<String>, compression: Option<CompressionType>) -> (r:
        InitCommand)
        ensures
            r.id == id && r.password == password && r.compression == compression,
    {
        InitCommand { id, password, compression }
    }
    /// Writes the command's wire line.
    pub fn encode(&self) -> (r: Vec<u8>)
        ensures
            r@ == self.encoded(),
    {
        let mut out: Vec<u8> = Vec::new();
        push_id(&mut out, &self.id);
        push_str(&mut out, "init");
        if self.password.is_some() || self.compression.is_some() {
            push_byte(&mut out, ' ' as u8);
            match &self.password {
                Some(p) => {
                    push_str(&mut out, "password=");
                    push_escaped(&mut out, p);
                },
                None => {
                },
            }
            match &self.compression {
                Some(c) => {
                    if self.password.is_some() {
                        push_byte(&mut out, ',' as u8);
                    }
                    push_str(&mut out, "compression=");
                    push_str(&mut out, c.as_str());
                },
                None => {
                },
            }
        }
        push_byte(&mut out, '\n' as u8);
        proof {
            assert(out@ =~= self.encoded());
        }
        out
    }

}

impl Command for InitCommand {
    open spec fn encoded(&self) -> Seq<u8> {
        id_prefix(self.id) + "init".spec_bytes() + (if self.password is Some || self.compression
            is Some {
            seq![' ' as u8] + (match self.password {
                Some(p) => "password=".spec_bytes() + escaped(string_bytes(p)),
                None => Seq::empty(),
            }) + (match self.compression {
                Some(c) => (if self.password is Some {
                    seq![',' as u8]
                } else {
                    Seq::empty()
                }) + "compression=".spec_bytes() + compression_bytes(c),
                None => Seq::empty(),
            })
        } else {
            Seq::empty()
        }) + seq!['\n' as u8]
    }

    open spec fn reply_id(&self) -> Option<Seq<char>> {
        match self.id {
            Some(s) => Some(s@),
            None => None,
        }
    }

    open spec fn expects_reply(&self) -> bool {
        false
    }

    fn get_id(&self) -> (r: Option<String>) {
        match &self.id {
            Some(s) => Some(s.clone()),
            None => None,
        }
    }

    fn set_id(&mut self, id: Option<String>) {
        self.id = id;
    }

    fn encode(&self) -> (r: Vec<u8>) {
        self.encode()
    }

    fn has_response(&self) -> (r: bool) {
        false
    }
}

/// A record count in an `hdata` request: every record, or the first `n`.
pub enum HdataCommandLength {
    Infinite,
    Finite(i32),
}

/// The decimal spelling of an integer, minus sign included.
pub open spec fn int_dec_bytes(i: int) -> Seq<u8> {
    if i < 0 {
        seq!['-' as u8] + crate::num::dec_digits_of((-i) as nat)
    } else {
        crate::num::dec_digits_of(i as nat)
    }
}

/// The parenthesized count suffix of one path element, if a count is set.
pub open spec fn count_bytes(c: Option<HdataCommandLength>) -> Seq<u8> {
    match c {
        None => Seq::empty(),
        Some(HdataCommandLength::Infinite) => "(*)".spec_bytes(),
        Some(HdataCommandLength::Finite(n)) => seq!['(' as u8] + int_dec_bytes(n as int) + seq![
            ')' as u8,
        ],
    }
}

/// The `/var(count)` suffixes of an `hdata` request.
pub open spec fn vars_bytes(vars: Seq<(String, Option<HdataCommandLength>)>) -> Seq<u8>
    decreases vars.len(),
{
    if vars.len() == 0 {
        Seq::empty()
    } else {
        vars_bytes(vars.drop_last()) + seq!['/' as u8] + string_bytes(vars.last().0) + count_bytes(
            vars.last().1,
        )
    }
}

/// Appends the canonical decimal digits of `v`.
fn push_u128_dec(out: &mut Vec<u8>, v: u128)
    ensures
        final(out)@ == old(out)@ + crate::num::dec_digits_of(v as nat),
    decreases v,
{
    if v < 10 {
        out.push((v as u8) + 48);
    } else {
        push_u128_dec(out, v / 10);
        out.push(((v % 10) as u8) + 48);
        proof {
            assert(out@ =~= old(out)@ + crate::num::dec_digits_of(v as nat));
        }
    }
}

/// Appends the count suffix of one path element.
fn push_count(out: &mut Vec<u8>, c: &Option<HdataCommandLength>)
    ensures
        final(out)@ == old(out)@ + count_bytes(*c),
{
    match c {
        None => {
        },
        Some(HdataCommandLength::Infinite) => {
            push_str(out, "(*)");
        },
        Some(HdataCommandLength::Finite(n)) => {
            push_byte(out, '(' as u8);
            if *n < 0 {
                push_byte(out, '-' as u8);
                let m: u128 = (-(*n as i64)) as u128;
                push_u128_dec(out, m);
            } else {
                push_u128_dec(out, *n as u128);
            }
            push_byte(out, ')' as u8);
            proof {
                assert(out@ =~= old(out)@ + count_bytes(*c));
            }
        },
    }
}

/// Appends the `/var(count)` suffixes.
fn push_vars(out: &mut Vec<u8>, vars: &Vec<(String, Option<HdataCommandLength>)>)
    ensures
        final(out)@ == old(out)@ + vars_bytes(vars@),
{
    let mut i: usize = 0;
    while i < vars.len()
        invariant
            i <= vars@.len(),
            out@ == old(out)@ + vars_bytes(vars@.subrange(0, i as int)),
        decreases vars@.len() - i,
    {
        proof {
            assert(vars@.subrange(0, i + 1).drop_last() =~= vars@.subrange(0, i as int));
            assert(vars@.subrange(0, i + 1).last() == vars@[i as int]);
        }
        push_byte(out, '/' as u8);
        push_string(out, &vars[i].0);
        push_count(out, &vars[i].1);
        i = i + 1;
    }
    proof {
        assert(vars@.subrange(0, vars@.len() as int) =~= vars@);
    }
}

/// Requests records from a named hdata:
/// `hdata <name>:<pointer>[(count)][/<var>[(count)]]…[ <key>,…]`.
pub struct HdataCommand {
    pub id: Option<String>,
    pub hdata: String,
    pub pointer: (String, Option<HdataCommandLength>),
    pub var: Vec<(String, Option<HdataCommandLength>)>,
    pub keys: Option<Vec<String>>,
}

impl HdataCommand {
    /// A new `hdata` command.
    pub fn new(
        id: Option<String>,
        hdata: String,
        pointer: (String, Option<HdataCommandLength>),
        var: Vec<(String, Option<HdataCommandLength>)>,
        keys: Option<Vec<String>>,
    ) -> (r: HdataCommand)
        ensures
            r == (HdataCommand { id, hdata, pointer, var, keys }),
    {
        HdataCommand { id, hdata, pointer, var, keys }
    }
    /// Writes the command's wire line.
    pub fn encode(&self) -> (r: Vec<u8>)
        ensures
            r@ == self.encoded(),
    {
        let mut out: Vec<u8> = Vec::new();
        push_id(&mut out, &self.id);
        push_str(&mut out, "hdata ");
        push_string(&mut out, &self.hdata);
        push_byte(&mut out, ':' as u8);
        push_string(&mut out, &self.pointer.0);
        push_count(&mut out, &self.pointer.1);
        push_vars(&mut out, &self.var);
        match &self.keys {
            Some(ks) => {
                push_byte(&mut out, ' ' as u8);
                push_join_comma(&mut out, ks);
            },
            None => {
            },
        }
        push_byte(&mut out, '\n' as u8);
        proof {
            assert(out@ =~= self.encoded());
        }
        out
    }

}

impl Command for HdataCommand {
    open spec fn encoded(&self) -> Seq<u8> {
        id_prefix(self.id) + "hdata ".spec_bytes() + string_bytes(self.hdata) + seq![':' as u8]
            + string_bytes(self.pointer.0) + count_bytes(self.pointer.1) + vars_bytes(self.var@) + (
        match self.keys {
            Some(ks) => seq![' ' as u8] + join_comma(ks@),
            None => Seq::empty(),
        }) + seq!['\n' as u8]
    }

    open spec fn reply_id(&self) -> Option<Seq<char>> {
        match self.id {
            Some(s) => Some(s@),
            None => None,
        }
    }

    open spec fn expects_reply(&self) -> bool {
        true
    }

    fn get_id(&self) -> (r: Option<String>) {
        match &self.id {
            Some(s) => Some(s.clone()),
            None => None,
        }
    }

    fn set_id(&mut self, id: Option<String>) {
        self.id = id;
    }

    fn encode(&self) -> (r: Vec<u8>) {
        self.encode()
    }

    fn has_response(&self) -> (r: bool) {
        true
    }
}

/// Requests one named info string: `info <name>`.
pub struct InfoCommand {
    pub id: Option<String>,
    pub name: String,
}

impl InfoCommand {
    /// A new `info` command.
    pub fn new(id: Option<String>, name: String) -> (r: InfoCommand)
        ensures
            r == (InfoCommand { id, name }),
    {
        InfoCommand { id, name }
    }
    /// Writes the command's wire line.
    pub fn encode(&self) -> (r: Vec<u8>)
        ensures
            r@ == self.encoded(),
    {
        let mut out: Vec<u8> = Vec::new();
        push_id(&mut out, &self.id);
        push_str(&mut out, "info ");
        push_string(&mut out, &self.name);
        push_byte(&mut out, '\n' as u8);
        proof {
            assert(out@ =~= self.encoded());
        }
        out
    }

}

impl Command for InfoCommand {
    open spec fn encoded(&self) -> Seq<u8> {
        id_prefix(self.id) + "info ".spec_bytes() + string_bytes(self.name) + seq!['\n' as u8]
    }

    open spec fn reply_id(&self) -> Option<Seq<char>> {
        match self.id {
            Some(s) => Some(s@),
            None => None,
        }
    }

    open spec fn expects_reply(&self) -> bool {
        true
    }

    fn get_id(&self) -> (r: Option<String>) {
        match &self.id {
            Some(s) => Some(s.clone()),
            None => None,
        }
    }

    fn set_id(&mut self, id: Option<String>) {
        self.id = id;
    }

    fn encode(&self) -> (r: Vec<u8>) {
        self.encode()
    }

    fn has_response(&self) -> (r: bool) {
        true
    }
}

/// Requests an infolist: `infolist <name>[ <pointer>[ <arg>…]]`; the
/// arguments go out only when a pointer is present.
pub struct InfoListCommand {
    pub id: Option<String>,
    pub name: String,
    pub pointer: Option<String>,
    pub arguments: Option<Vec<String>>,
}

impl InfoListCommand {
    /// A new `infolist` command.
    pub fn new(
        id: Option<String>,
        name: String,
        pointer: Option<String>,
        arguments: Option<Vec<String>>,
    ) -> (r: InfoListCommand)
        ensures
            r == (InfoListCommand { id, name, pointer, arguments }),
    {
        InfoListCommand { id, name, pointer, arguments }
    }
    /// Writes the command's wire line.
    pub fn encode(&self) -> (r: Vec<u8>)
        ensures
            r@ == self.encoded(),
    {
        let mut out: Vec<u8> = Vec::new();
        push_id(&mut out, &self.id);
        push_str(&mut out, "infolist ");
        push_string(&mut out, &self.name);
        match &self.pointer {
            Some(p) => {
                push_byte(&mut out, ' ' as u8);
                push_string(&mut out, p);
                match &self.arguments {
                    Some(args) => {
                        push_spaced(&mut out, args);
                    },
                    None => {
                    },
                }
            },
            None => {
            },
        }
        push_byte(&mut out, '\n' as u8);
        proof {
            assert(out@ =~= self.encoded());
        }
        out
    }

}

impl Command for InfoListCommand {
    open spec fn encoded(&self) -> Seq<u8> {
        id_prefix(self.id) + "infolist ".spec_bytes() + string_bytes(self.name) + (
        match self.pointer {
            Some(p) => seq![' ' as u8] + string_bytes(p) + (match self.arguments {
                Some(args) => spaced(args@),
                None => Seq::empty(),
            }),
            None => Seq::empty(),
        }) + seq!['\n' as u8]
    }

    open spec fn reply_id(&self) -> Option<Seq<char>> {
        match self.id {
            Some(s) => Some(s@),
            None => None,
        }
    }

    open spec fn expects_reply(&self) -> bool {
        true
    }

    fn get_id(&self) -> (r: Option<String>) {
        match &self.id {
            Some(s) => Some(s.clone()),
            None => None,
        }
    }

    fn set_id(&mut self, id: Option<String>) {
        self.id = id;
    }

    fn encode(&self) -> (r: Vec<u8>) {
        self.encode()
    }

    fn has_response(&self) -> (r: bool) {
        true
    }
}

/// Requests a nick list: `nicklist[ <buffer>]`.
pub struct NicklistCommand {
    pub id: Option<String>,
    pub buffer: Option<String>,
}

impl NicklistCommand {
    /// A new `nicklist` command.
    pub fn new(id: Option<String>, buffer: Option<String>) -> (r: NicklistCommand)
        ensures
            r == (NicklistCommand { id, buffer }),
    {
        NicklistCommand { id, buffer }
    }
    /// Writes the command's wire line.
    pub fn encode(&self) -> (r: Vec<u8>)
        ensures
            r@ == self.encoded(),
    {
        let mut out: Vec<u8> = Vec::new();
        push_id(&mut out, &self.id);
        push_str(&mut out, "nicklist");
        match &self.buffer {
            Some(b) => {
                push_byte(&mut out, ' ' as u8);
                push_string(&mut out, b);
            },
            None => {
            },
        }
        push_byte(&mut out, '\n' as u8);
        proof {
            assert(out@ =~= self.encoded());
        }
        out
    }

}

impl Command for NicklistCommand {
    open spec fn encoded(&self) -> Seq<u8> {
        id_prefix(self.id) + "nicklist".spec_bytes() + (match self.buffer {
            Some(b) => seq![' ' as u8] + string_bytes(b),
            None => Seq::empty(),
        }) + seq!['\n' as u8]
    }

    open spec fn reply_id(&self) -> Option<Seq<char>> {
        match self.id {
            Some(s) => Some(s@),
            None => None,
        }
    }

    open spec fn expects_reply(&self) -> bool {
        true
    }

    fn get_id(&self) -> (r: Option<String>) {
        match &self.id {
            Some(s) => Some(s.clone()),
            None => None,
        }
    }

    fn set_id(&mut self, id: Option<String>) {
        self.id = id;
    }

    fn encode(&self) -> (r: Vec<u8>) {
        self.encode()
    }

    fn has_response(&self) -> (r: bool) {
        true
    }
}

/// Sends one line of input to a buffer: `input <buffer> <data>`.
pub struct InputCommand {
    pub id: Option<String>,
    pub buffer: String,
    pub data: String,
}

impl InputCommand {
    /// A new `input` command.
    pub fn new(id: Option<String>, buffer: String, data: String) -> (r: InputCommand)
        ensures
            r == (InputCommand { id, buffer, data }),
    {
        InputCommand { id, buffer, data }
    }
    /// Writes the command's wire line.
    pub fn encode(&self) -> (r: Vec<u8>)
        ensures
            r@ == self.encoded(),
    {
        let mut out: Vec<u8> = Vec::new();
        push_id(&mut out, &self.id);
        push_str(&mut out, "input ");
        push_string(&mut out, &self.buffer);
        push_byte(&mut out, ' ' as u8);
        push_string(&mut out, &self.data);
        push_byte(&mut out, '\n' as u8);
        proof {
            assert(out@ =~= self.encoded());
        }
        out
    }

}

impl Command for InputCommand {
    open spec fn encoded(&self) -> Seq<u8> {
        id_prefix(self.id) + "input ".spec_bytes() + string_bytes(self.buffer) + seq![' ' as u8]
            + string_bytes(self.data) + seq!['\n' as u8]
    }

    open spec fn reply_id(&self) -> Option<Seq<char>> {
        match self.id {
            Some(s) => Some(s@),
            None => None,
        }
    }

    open spec fn expects_reply(&self) -> bool {
        false
    }

    fn get_id(&self) -> (r: Option<String>) {
        match &self.id {
            Some(s) => Some(s.clone()),
            None => None,
        }
    }

    fn set_id(&mut self, id: Option<String>) {
        self.id = id;
    }

    fn encode(&self) -> (r: Vec<u8>) {
        self.encode()
    }

    fn has_response(&self) -> (r: bool) {
        false
    }
}

/// What a sync subscription follows for one buffer.
#[derive(Clone, Copy, PartialEq, Eq, Structural, Debug)]
pub enum SyncOption {
    Buffers,
    Upgrade,
    Buffer,
    Nicklist,
}

/// The wire spelling of a sync option.
pub open spec fn sync_option_bytes(o: SyncOption) -> Seq<u8> {
    match o {
        SyncOption::Buffers => "buffers".spec_bytes(),
        SyncOption::Upgrade => "upgrade".spec_bytes(),
        SyncOption::Buffer => "buffer".spec_bytes(),
        SyncOption::Nicklist => "nicklist".spec_bytes(),
    }
}

impl SyncOption {
    /// The wire spelling.
    pub fn as_str(&self) -> (r: &'static str)
        ensures
            r.spec_bytes() == sync_option_bytes(*self),
    {
        match self {
            SyncOption::Buffers => "buffers",
            SyncOption::Upgrade => "upgrade",
            SyncOption::Buffer => "buffer",
            SyncOption::Nicklist => "nicklist",
        }
    }
}

/// The `<buffer>,… <option>,…` tail of a sync or desync line: the buffer
/// names joined with commas, a space, and the matching options joined with
/// commas; nothing when no pair was given.
pub open spec fn sync_args_bytes(args: Seq<(String, SyncOption)>) -> Seq<u8> {
    if args.len() == 0 {
        Seq::empty()
    } else {
        seq![' ' as u8] + sync_names_bytes(args) + seq![' ' as u8] + sync_options_bytes(args)
    }
}

/// The buffer names of a sync argument list, joined with commas.
pub open spec fn sync_names_bytes(args: Seq<(String, SyncOption)>) -> Seq<u8>
    decreases args.len(),
{
    if args.len() == 0 {
        Seq::empty()
    } else if args.len() == 1 {
        string_bytes(args[0].0)
    } else {
        sync_names_bytes(args.drop_last()) + seq![',' as u8] + string_bytes(args.last().0)
    }
}

/// The options of a sync argument list, joined with commas.
pub open spec fn sync_options_bytes(args: Seq<(String, SyncOption)>) -> Seq<u8>
    decreases args.len(),
{
    if args.len() == 0 {
        Seq::empty()
    } else if args.len() == 1 {
        sync_option_bytes(args[0].1)
    } else {
        sync_options_bytes(args.drop_last()) + seq![',' as u8] + sync_option_bytes(args.last().1)
    }
}

/// Appends the comma-joined buffer names of a sync argument list.
fn push_sync_names(out: &mut Vec<u8>, args: &Vec<(String, SyncOption)>)
    ensures
        final(out)@ == old(out)@ + sync_names_bytes(args@),
{
    let mut i: usize = 0;
    while i < args.len()
        invariant
            i <= args@.len(),
            out@ == old(out)@ + sync_names_bytes(args@.subrange(0, i as int)),
        decreases args@.len() - i,
    {
        proof {
            assert(args@.subrange(0, i + 1).drop_last() =~= args@.subrange(0, i as int));
            assert(args@.subrange(0, i + 1).last() == args@[i as int]);
        }
        if i != 0 {
            push_byte(out, ',' as u8);
        }
        push_string(out, &args[i].0);
        i = i + 1;
    }
    proof {
        assert(args@.subrange(0, args@.len() as int) =~= args@);
    }
}

/// Appends the comma-joined options of a sync argument list.
fn push_sync_options(out: &mut Vec<u8>, args: &Vec<(String, SyncOption)>)
    ensures
        final(out)@ == old(out)@ + sync_options_bytes(args@),
{
    let mut i: usize = 0;
    while i < args.len()
        invariant
            i <= args@.len(),
            out@ == old(out)@ + sync_options_bytes(args@.subrange(0, i as int)),
        decreases args@.len() - i,
    {
        proof {
            assert(args@.subrange(0, i + 1).drop_last() =~= args@.subrange(0, i as int));
            assert(args@.subrange(0, i + 1).last() == args@[i as int]);
        }
        if i != 0 {
            push_byte(out, ',' as u8);
        }
        push_str(out, args[i].1.as_str());
        i = i + 1;
    }
    proof {
        assert(args@.subrange(0, args@.len() as int) =~= args@);
    }
}

/// Appends the whole sync argument tail.
fn push_sync_args(out: &mut Vec<u8>, args: &Vec<(String, SyncOption)>)
    ensures
        final(out)@ == old(out)@ + sync_args_bytes(args@),
{
    if args.len() != 0 {
        push_byte(out, ' ' as u8);
        push_sync_names(out, args);
        push_byte(out, ' ' as u8);
        push_sync_options(out, args);
        proof {
            assert(out@ =~= old(out)@ + sync_args_bytes(args@));
        }
    }
}

/// Subscribes to pushed updates: `sync[ <buffer>,… <option>,…]`.
pub struct SyncCommand {
    pub id: Option<String>,
    pub args: Vec<(String, SyncOption)>,
}

impl SyncCommand {
    /// A new `sync` command.
    pub fn new(id: Option<String>, args: Vec<(String, SyncOption)>) -> (r: SyncCommand)
        ensures
            r == (SyncCommand { id, args }),
    {
        SyncCommand { id, args }
    }
    /// Writes the command's wire line.
    pub fn encode(&self) -> (r: Vec<u8>)
        ensures
            r@ == self.encoded(),
    {
        let mut out: Vec<u8> = Vec::new();
        push_id(&mut out, &self.id);
        push_str(&mut out, "sync");
        push_sync_args(&mut out, &self.args);
        push_byte(&mut out, '\n' as u8);
        proof {
            assert(out@ =~= self.encoded());
        }
        out
    }

}

impl Command for SyncCommand {
    open spec fn encoded(&self) -> Seq<u8> {
        id_prefix(self.id) + "sync".spec_bytes() + sync_args_bytes(self.args@) + seq!['\n' as u8]
    }

    open spec fn reply_id(&self) -> Option<Seq<char>> {
        match self.id {
            Some(s) => Some(s@),
            None => None,
        }
    }

    open spec fn expects_reply(&self) -> bool {
        false
    }

    fn get_id(&self) -> (r: Option<String>) {
        match &self.id {
            Some(s) => Some(s.clone()),
            None => None,
        }
    }

    fn set_id(&mut self, id: Option<String>) {
        self.id = id;
    }

    fn encode(&self) -> (r: Vec<u8>) {
        self.encode()
    }

    fn has_response(&self) -> (r: bool) {
        false
    }
}

/// Cancels sync subscriptions: `desync[ <buffer>,… <option>,…]`.
pub struct DesyncCommand {
    pub id: Option<String>,
    pub args: Vec<(String, SyncOption)>,
}

impl DesyncCommand {
    /// A new `desync` command.
    pub fn new(id: Option<String>, args: Vec<(String, SyncOption)>) -> (r: DesyncCommand)
        ensures
            r == (DesyncCommand { id, args }),
    {
        DesyncCommand { id, args }
    }
    /// Writes the command's wire line.
    pub fn encode(&self) -> (r: Vec<u8>)
        ensures
            r@ == self.encoded(),
    {
        let mut out: Vec<u8> = Vec::new();
        push_id(&mut out, &self.id);
        push_str(&mut out, "desync");
        push_sync_args(&mut out, &self.args);
        push_byte(&mut out, '\n' as u8);
        proof {
            assert(out@ =~= self.encoded());
        }
        out
    }

}

impl Command for DesyncCommand {
    open spec fn encoded(&self) -> Seq<u8> {
        id_prefix(self.id) + "desync".spec_bytes() + sync_args_bytes(self.args@) + seq!['\n' as u8]
    }

    open spec fn reply_id(&self) -> Option<Seq<char>> {
        match self.id {
            Some(s) => Some(s@),
            None => None,
        }
    }

    open spec fn expects_reply(&self) -> bool {
        false
    }

    fn get_id(&self) -> (r: Option<String>) {
        match &self.id {
            Some(s) => Some(s.clone()),
            None => None,
        }
    }

    fn set_id(&mut self, id: Option<String>) {
        self.id = id;
    }

    fn encode(&self) -> (r: Vec<u8>) {
        self.encode()
    }

    fn has_response(&self) -> (r: bool) {
        false
    }
}

/// Asks the server for its test payload: `test`.
pub struct TestCommand {
    pub id: Option<String>,
}

impl TestCommand {
    /// A new `test` command.
    pub fn new(id: Option<String>) -> (r: TestCommand)
        ensures
            r == (TestCommand { id }),
    {
        TestCommand { id }
    }
    /// Writes the command's wire line.
    pub fn encode(&self) -> (r: Vec<u8>)
        ensures
            r@ == self.encoded(),
    {
        let mut out: Vec<u8> = Vec::new();
        push_id(&mut out, &self.id);
        push_str(&mut out, "test\n");
        proof {
            assert(out@ =~= self.encoded());
        }
        out
    }

}

impl Command for TestCommand {
    open spec fn encoded(&self) -> Seq<u8> {
        id_prefix(self.id) + "test\n".spec_bytes()
    }

    open spec fn reply_id(&self) -> Option<Seq<char>> {
        match self.id {
            Some(s) => Some(s@),
            None => None,
        }
    }

    open spec fn expects_reply(&self) -> bool {
        true
    }

    fn get_id(&self) -> (r: Option<String>) {
        match &self.id {
            Some(s) => Some(s.clone()),
            None => None,
        }
    }

    fn set_id(&mut self, id: Option<String>) {
        self.id = id;
    }

    fn encode(&self) -> (r: Vec<u8>) {
        self.encode()
    }

    fn has_response(&self) -> (r: bool) {
        true
    }
}

/// Pings the server: `ping[ <arg>…]`. The reply always carries the id
/// `_pong`, whatever id the caller set on the outgoing line.
pub struct PingCommand {
    pub id: Option<String>,
    pub arguments: Option<Vec<String>>,
}

impl PingCommand {
    /// A new `ping` command.
    pub fn new(id: Option<String>, arguments: Option<Vec<String>>) -> (r: PingCommand)
        ensures
            r == (PingCommand { id, arguments }),
    {
        PingCommand { id, arguments }
    }
    /// Writes the command's wire line.
    pub fn encode(&self) -> (r: Vec<u8>)
        ensures
            r@ == self.encoded(),
    {
        let mut out: Vec<u8> = Vec::new();
        push_id(&mut out, &self.id);
        push_str(&mut out, "ping");
        match &self.arguments {
            Some(args) => {
                push_spaced(&mut out, args);
            },
            None => {
            },
        }
        push_byte(&mut out, '\n' as u8);
        proof {
            assert(out@ =~= self.encoded());
        }
        out
    }

}

impl Command for PingCommand {
    open spec fn encoded(&self) -> Seq<u8> {
        id_prefix(self.id) + "ping".spec_bytes() + (match self.arguments {
            Some(args) => spaced(args@),
            None => Seq::empty(),
        }) + seq!['\n' as u8]
    }

    open spec fn reply_id(&self) -> Option<Seq<char>> {
        Some("_pong"@)
    }

    open spec fn expects_reply(&self) -> bool {
        true
    }

    fn get_id(&self) -> (r: Option<String>) {
        Some("_pong".to_owned())
    }

    fn set_id(&mut self, id: Option<String>) {
        self.id = id;
    }

    fn encode(&self) -> (r: Vec<u8>) {
        self.encode()
    }

    fn has_response(&self) -> (r: bool) {
        true
    }
}

/// Ends the session: `quit`.
pub struct QuitCommand {
    pub id: Option<String>,
}

impl QuitCommand {
    /// A new `quit` command.
    pub fn new(id: Option<String>) -> (r: QuitCommand)
        ensures
            r == (QuitCommand { id }),
    {
        QuitCommand { id }
    }
    /// Writes the command's wire line.
    pub fn encode(&self) -> (r: Vec<u8>)
        ensures
            r@ == self.encoded(),
    {
        let mut out: Vec<u8> = Vec::new();
        push_id(&mut out, &self.id);
        push_str(&mut out, "quit\n");
        proof {
            assert(out@ =~= self.encoded());
        }
        out
    }

}

impl Command for QuitCommand {
    open spec fn encoded(&self) -> Seq<u8> {
        id_prefix(self.id) + "quit\n".spec_bytes()
    }

    open spec fn reply_id(&self) -> Option<Seq<char>> {
        match self.id {
            Some(s) => Some(s@),
            None => None,
        }
    }

    open spec fn expects_reply(&self) -> bool {
        false
    }

    fn get_id(&self) -> (r: Option<String>) {
        match &self.id {
            Some(s) => Some(s.clone()),
            None => None,
        }
    }

    fn set_id(&mut self, id: Option<String>) {
        self.id = id;
    }

    fn encode(&self) -> (r: Vec<u8>) {
        self.encode()
    }

    fn has_response(&self) -> (r: bool) {
        false
    }
}

} // verus!
