//! Recipient addresses: the formatting of a mailbox into an address
//! argument, and the merge of addresses resolved from a prior thread
//! into the ones given on the command line.
//!
//! The merge hands a fetched message to an outside mail parser that
//! panics or stalls on some inputs, so only messages the
//! [`spec_tame_message`] gate admits ever reach it; everything else —
//! including ordinary mail with a content-type header or encoded
//! words — is refused with [`SubmitError::MalformedMessage`] rather
//! than risked. A caller that wants the wider, unguarded behavior has
//! to take the parse into its own hands and may then feed the
//! recovered addresses to [`append_addresses`].
use vstd::prelude::*;

use crate::error::SubmitError;
use crate::text::push_char;

verus! {

/// One mailbox: an address, under a display name where one is known.
pub struct Mailbox {
    pub name: Option<String>,
    pub address: String,
}

impl Mailbox {
    /// A mailbox without a display name.
    pub fn new(address: String) -> (r: Mailbox)
        ensures
            r.name is None,
            r.address == address,
    {
        Mailbox { name: None, address }
    }

    /// A mailbox under a display name.
    pub fn new_with_name(name: String, address: String) -> (r: Mailbox)
        ensures
            r.name == Some(name),
            r.address == address,
    {
        Mailbox { name: Some(name), address }
    }
}

/// One address of a message header: a mailbox, or a named group of
/// mailboxes.
pub enum Address {
    Mailbox(Mailbox),
    Group(String, Vec<Mailbox>),
}

/// How a mailbox reads as one address argument: `name <address>`, or
/// the bare address without a name.
pub open spec fn spec_format_mailbox(mb: Mailbox) -> Seq<char> {
    match mb.name {
        Some(n) => n@ + seq![' ', '<'] + mb.address@ + seq!['>'],
        None => mb.address@,
    }
}

/// The formatted members of a group, in order.
pub open spec fn spec_group_addresses(mbs: Seq<Mailbox>) -> Seq<Seq<char>> {
    Seq::new(mbs.len(), |i: int| spec_format_mailbox(mbs[i]))
}

/// Every mailbox of an address list, groups flattened, each formatted.
pub open spec fn spec_flatten_addresses(addrs: Seq<Address>) -> Seq<Seq<char>>
    decreases addrs.len(),
{
    if addrs.len() == 0 {
        Seq::empty()
    } else {
        spec_flatten_addresses(addrs.drop_last()) + (match addrs.last() {
            Address::Mailbox(mb) => seq![spec_format_mailbox(mb)],
            Address::Group(_, mbs) => spec_group_addresses(mbs@),
        })
    }
}

/// Format one mailbox as an address argument.
pub fn format_addr(mb: Mailbox) -> (r: String)
    ensures
        r@ == spec_format_mailbox(mb),
{
    match mb.name {
        Some(name) => {
            let mut s = name;
            push_char(&mut s, ' ');
            push_char(&mut s, '<');
            s.append(mb.address.as_str());
            push_char(&mut s, '>');
            proof {
                assert(s@ =~= spec_format_mailbox(mb));
            }
            s
        },
        None => mb.address,
    }
}

/// Format a borrowed mailbox.
fn format_addr_ref(mb: &Mailbox) -> (r: String)
    ensures
        r@ == spec_format_mailbox(*mb),
{
    let copy = Mailbox {
        name: match &mb.name {
            Some(n) => Some(n.clone()),
            None => None,
        },
        address: mb.address.clone(),
    };
    proof {
        assert(copy == *mb);
    }
    format_addr(copy)
}

/// Append every address of the list, groups flattened, each formatted.
pub fn append_addresses(out: &mut Vec<String>, parsed: &Vec<Address>)
    ensures
        final(out).deep_view() == old(out).deep_view() + spec_flatten_addresses(parsed@),
        final(out)@.len() >= old(out)@.len(),
        final(out)@.take(old(out)@.len() as int) == old(out)@,
{
    let mut i: usize = 0;
    while i < parsed.len()
        invariant
            0 <= i <= parsed@.len(),
            out.deep_view() =~= old(out).deep_view() + spec_flatten_addresses(
                parsed@.take(i as int),
            ),
            out@.len() >= old(out)@.len(),
            out@.take(old(out)@.len() as int) =~= old(out)@,
        decreases parsed@.len() - i,
    {
        proof {
            assert(parsed@.take(i + 1).drop_last() =~= parsed@.take(i as int));
            assert(parsed@.take(i + 1).last() == parsed@[i as int]);
        }
        match &parsed[i] {
            Address::Mailbox(mb) => {
                let ghost prev = out.deep_view();
                let a = format_addr_ref(mb);
                let ghost av = a@;
                out.push(a);
                proof {
                    assert(out.deep_view() =~= prev.push(av));
                    assert(out.deep_view() =~= old(out).deep_view() + spec_flatten_addresses(
                        parsed@.take(i + 1),
                    ));
                }
            },
            Address::Group(_, mbs) => {
                let ghost mid = out.deep_view();
                let mut j: usize = 0;
                while j < mbs.len()
                    invariant
                        0 <= j <= mbs@.len(),
                        out.deep_view() =~= mid + spec_group_addresses(mbs@).take(j as int),
                        out@.len() >= old(out)@.len(),
                        out@.take(old(out)@.len() as int) =~= old(out)@,
                    decreases mbs@.len() - j,
                {
                    let ghost prev = out.deep_view();
                    let a = format_addr_ref(&mbs[j]);
                    let ghost av = a@;
                    out.push(a);
                    proof {
                        assert(out.deep_view() =~= prev.push(av));
                        assert(out.deep_view() =~= mid + spec_group_addresses(mbs@).take(j + 1));
                    }
                    j = j + 1;
                }
                proof {
                    assert(spec_group_addresses(mbs@).take(mbs@.len() as int)
                        =~= spec_group_addresses(mbs@));
                    assert(out.deep_view() =~= old(out).deep_view() + spec_flatten_addresses(
                        parsed@.take(i + 1),
                    ));
                }
            },
        }
        i = i + 1;
    }
    proof {
        assert(parsed@.take(parsed@.len() as int) =~= parsed@);
    }
}

/// Whether a character ends a line.
pub open spec fn is_break(c: char) -> bool {
    c == '\r' || c == '\n'
}

/// Whether the twelve characters at `i` spell the content-type header
/// name, in any case.
pub open spec fn content_type_at(s: Seq<char>, i: int) -> bool {
    &&& 0 <= i
    &&& i + 12 <= s.len()
    &&& (s[i] == 'c' || s[i] == 'C')
    &&& (s[i + 1] == 'o' || s[i + 1] == 'O')
    &&& (s[i + 2] == 'n' || s[i + 2] == 'N')
    &&& (s[i + 3] == 't' || s[i + 3] == 'T')
    &&& (s[i + 4] == 'e' || s[i + 4] == 'E')
    &&& (s[i + 5] == 'n' || s[i + 5] == 'N')
    &&& (s[i + 6] == 't' || s[i + 6] == 'T')
    &&& s[i + 7] == '-'
    &&& (s[i + 8] == 't' || s[i + 8] == 'T')
    &&& (s[i + 9] == 'y' || s[i + 9] == 'Y')
    &&& (s[i + 10] == 'p' || s[i + 10] == 'P')
    &&& (s[i + 11] == 'e' || s[i + 11] == 'E')
}

/// A character the header parser always steps over: printable ASCII,
/// space, tab, or a line break. On anything else inside a header value
/// the parser makes no progress at all.
pub open spec fn safe_char(c: char) -> bool {
    ('!' <= c <= '~') || c == ' ' || c == '\t' || c == '\r' || c == '\n'
}

/// Where the header block ends, read conservatively: the first line
/// that opens with a line break (the blank separator line), or the
/// end of the text. Everything the header parser walks lies below it.
pub open spec fn header_end(s: Seq<char>, i: int) -> int
    decreases s.len() - i,
{
    if i >= s.len() {
        s.len() as int
    } else if 1 <= i && s[i - 1] == '\n' && is_break(s[i]) {
        i
    } else {
        header_end(s, i + 1)
    }
}

/// A message text the mail parser reads without leaving its total
/// paths: no encoded word can arise (`=?` nowhere, `=` never last on
/// a line, and no escape in the header block, so neither folding nor
/// quoted-string unescaping can splice one together), no line ends in
/// a space, tab or `=`, no header names a content type, and the
/// header block holds only characters the parser steps over. Trailing
/// whitespace would reach the parser's end-of-input peek; encoded
/// words its transfer decoders; a content-type header its parameter
/// parser; another character in a header value stalls it — the places
/// where that parser gives up rather than fail. Without escapes, the
/// text of every word the address reader assembles is contiguous in
/// the source, so the `=?` ban reaches every word.
pub open spec fn spec_tame_message(s: Seq<char>) -> bool {
    &&& (forall|i: int| 0 <= i < s.len() - 1 && #[trigger] s[i] == '=' ==> s[i + 1] != '?')
    &&& (forall|i: int|
        0 <= i < s.len() && (#[trigger] s[i] == '=' || s[i] == ' ' || s[i] == '\t') ==> i + 1
            < s.len() && !is_break(s[i + 1]))
    &&& (forall|i: int|
        0 <= i < s.len() && (i == 0 || is_break(s[i - 1])) ==> !(#[trigger] content_type_at(
            s,
            i,
        )))
    &&& (forall|i: int|
        0 <= i < header_end(s, 0) ==> safe_char(#[trigger] s[i]) && s[i] != '\\')
}

/// `header_end` lands exactly on the first blank separator, or at the
/// end where there is none.
proof fn lemma_header_end_region(s: Seq<char>, i: int, j: int)
    requires
        0 <= i <= j <= s.len(),
        forall|k: int| i <= k < j && 1 <= k ==> !(s[k - 1] == '\n' && is_break(#[trigger] s[k])),
        j < s.len() ==> 1 <= j && s[j - 1] == '\n' && is_break(s[j]),
    ensures
        header_end(s, i) == j,
    decreases j - i,
{
    if i < j {
        assert(!(1 <= i && s[i - 1] == '\n' && is_break(s[i])));
        lemma_header_end_region(s, i + 1, j);
    }
}

/// Find the end of the header block.
fn header_block_end(s: &str) -> (b: usize)
    ensures
        b == header_end(s@, 0),
        b <= s@.len(),
{
    let n = s.unicode_len();
    let mut i: usize = 1;
    if n == 0 {
        proof {
            lemma_header_end_region(s@, 0, 0);
        }
        return 0;
    }
    while i < n
        invariant
            n == s@.len(),
            1 <= i <= n,
            forall|k: int|
                1 <= k < i ==> !(s@[k - 1] == '\n' && is_break(#[trigger] s@[k])),
        decreases n - i,
    {
        let prev = s.get_char(i - 1);
        let c = s.get_char(i);
        if prev == '\n' && (c == '\r' || c == '\n') {
            proof {
                lemma_header_end_region(s@, 0, i as int);
            }
            return i;
        }
        i = i + 1;
    }
    proof {
        lemma_header_end_region(s@, 0, n as int);
    }
    n
}

/// Whether the content-type header name stands at `i` of `name`.
fn content_type_from(s: &str, i: usize) -> (r: bool)
    requires
        i <= s@.len(),
    ensures
        r == content_type_at(s@, i as int),
{
    let n = s.unicode_len();
    if n - i < 12 {
        return false;
    }
    let mut j: usize = 0;
    let lower = ['c', 'o', 'n', 't', 'e', 'n', 't', '-', 't', 'y', 'p', 'e'];
    let upper = ['C', 'O', 'N', 'T', 'E', 'N', 'T', '-', 'T', 'Y', 'P', 'E'];
    while j < 12
        invariant
            n == s@.len(),
            i + 12 <= n,
            0 <= j <= 12,
            lower@ =~= seq!['c', 'o', 'n', 't', 'e', 'n', 't', '-', 't', 'y', 'p', 'e'],
            upper@ =~= seq!['C', 'O', 'N', 'T', 'E', 'N', 'T', '-', 'T', 'Y', 'P', 'E'],
            forall|k: int|
                0 <= k < j ==> #[trigger] s@[i + k] == lower@[k] || s@[i + k] == upper@[k],
        decreases 12 - j,
    {
        let c = s.get_char(i + j);
        if c != lower[j] && c != upper[j] {
            return false;
        }
        j = j + 1;
    }
    proof {
        assert(s@[i as int + 0] == lower@[0] || s@[i as int + 0] == upper@[0]);
        assert(s@[i as int + 1] == lower@[1] || s@[i as int + 1] == upper@[1]);
        assert(s@[i as int + 2] == lower@[2] || s@[i as int + 2] == upper@[2]);
        assert(s@[i as int + 3] == lower@[3] || s@[i as int + 3] == upper@[3]);
        assert(s@[i as int + 4] == lower@[4] || s@[i as int + 4] == upper@[4]);
        assert(s@[i as int + 5] == lower@[5] || s@[i as int + 5] == upper@[5]);
        assert(s@[i as int + 6] == lower@[6] || s@[i as int + 6] == upper@[6]);
        assert(s@[i as int + 7] == lower@[7] || s@[i as int + 7] == upper@[7]);
        assert(s@[i as int + 8] == lower@[8] || s@[i as int + 8] == upper@[8]);
        assert(s@[i as int + 9] == lower@[9] || s@[i as int + 9] == upper@[9]);
        assert(s@[i as int + 10] == lower@[10] || s@[i as int + 10] == upper@[10]);
        assert(s@[i as int + 11] == lower@[11] || s@[i as int + 11] == upper@[11]);
        assert(content_type_at(s@, i as int));
    }
    true
}

/// Decide whether a fetched message is tame enough to hand to the
/// mail parser.
pub fn is_tame_message(s: &str) -> (r: bool)
    ensures
        r == spec_tame_message(s@),
{
    let n = s.unicode_len();
    let block = header_block_end(s);
    let mut i: usize = 0;
    while i < n
        invariant
            n == s@.len(),
            block == header_end(s@, 0),
            0 <= i <= n,
            forall|k: int| 0 <= k < i && k < n - 1 && #[trigger] s@[k] == '=' ==> s@[k + 1] != '?',
            forall|k: int|
                0 <= k < i && (#[trigger] s@[k] == '=' || s@[k] == ' ' || s@[k] == '\t') ==> k + 1
                    < n && !is_break(s@[k + 1]),
            forall|k: int|
                0 <= k < i && (k == 0 || is_break(s@[k - 1])) ==> !(#[trigger] content_type_at(
                    s@,
                    k,
                )),
            forall|k: int|
                0 <= k < i && k < block ==> safe_char(#[trigger] s@[k]) && s@[k] != '\\',
        decreases n - i,
    {
        let c = s.get_char(i);
        if i < block {
            let v = c as u32;
            let safe = (33 <= v && v <= 126) || c == ' ' || c == '\t' || c == '\r' || c == '\n';
            if !safe || c == '\\' {
                proof {
                    assert(!(safe_char(s@[i as int]) && s@[i as int] != '\\'));
                }
                return false;
            }
        }
        if c == '=' || c == ' ' || c == '\t' {
            if i + 1 >= n {
                return false;
            }
            let next = s.get_char(i + 1);
            if next == '\r' || next == '\n' {
                return false;
            }
            if c == '=' && next == '?' {
                return false;
            }
        }
        let at_start = if i == 0 {
            true
        } else {
            let prev = s.get_char(i - 1);
            prev == '\r' || prev == '\n'
        };
        if at_start && content_type_from(s, i) {
            return false;
        }
        i = i + 1;
    }
    true
}

/// What the mail parser finds in the named header of a message text:
/// the formatted addresses, or nothing where the text is not a
/// well-formed message or the header is absent or undecodable.
pub uninterp spec fn spec_header_addresses(body: Seq<char>, header: Seq<char>) -> Option<
    Seq<Seq<char>>,
>;

/// Relies on email::MimeMessage::parse and HeaderMap::get_value (the
/// rfc5322 address parser): the addresses of the named header. The
/// tameness precondition keeps the run off that parser's partial
/// paths — encoded-word decoding (rfc2047), content-type parameter
/// decoding (rfc2045), the end-of-input peek behind trailing
/// whitespace, and the header-value scan that stops advancing on a
/// character outside printable ASCII (rfc5322) — none of which a tame
/// message reaches.
#[verifier::external_body]
fn message_addresses(body: &str, header: &str) -> (r: Option<Vec<Address>>)
    requires
        spec_tame_message(body@),
    ensures
        r is Some <==> spec_header_addresses(body@, header@) is Some,
        r matches Some(v) ==> Some(spec_flatten_addresses(v@)) == spec_header_addresses(
            body@,
            header@,
        ),
{
    let msg = email::MimeMessage::parse(body).ok()?;
    let addrs: Vec<email::Address> = msg.headers.get_value(header.to_owned()).ok()?;
    let conv = |mb: email::Mailbox| Mailbox { name: mb.name, address: mb.address };
    Some(addrs.into_iter().map(|a| match a {
        email::Address::Mailbox(mb) => Address::Mailbox(conv(mb)),
        email::Address::Group(n, g) => Address::Group(n, g.into_iter().map(conv).collect()),
    }).collect())
}

/// Merge the addresses of the named header of a fetched message into
/// the ones given on the command line. With no message the given list
/// is returned unchanged; a message the parser cannot be trusted with
/// (one outside the tameness gate, deliberately including ordinary
/// mail with a content-type header or encoded words) or cannot read
/// is an error, never an attempt.
pub fn resolve_addresses(command_line: Vec<String>, message: Option<&str>, header: &str) -> (r:
    Result<Vec<String>, SubmitError>)
    ensures
        message is None ==> r == Ok::<Vec<String>, SubmitError>(command_line),
        message matches Some(b) ==> (if spec_tame_message(b@) && spec_header_addresses(
            b@,
            header@,
        ) is Some {
            &&& r matches Ok(v)
            &&& v.deep_view() == command_line.deep_view() + spec_header_addresses(b@, header@)->0
            &&& v@.len() >= command_line@.len()
            &&& v@.take(command_line@.len() as int) == command_line@
        } else {
            r == Err::<Vec<String>, SubmitError>(SubmitError::MalformedMessage)
        }),
{
    match message {
        None => Ok(command_line),
        Some(body) => {
            if !is_tame_message(body) {
                return Err(SubmitError::MalformedMessage);
            }
            let parsed = match message_addresses(body, header) {
                Some(a) => a,
                None => {
                    return Err(SubmitError::MalformedMessage);
                },
            };
            let mut out = command_line;
            let ghost given = out@;
            append_addresses(&mut out, &parsed);
            proof {
                assert(out@.take(given.len() as int) =~= given);
            }
            Ok(out)
        },
    }
}

} // verus!
