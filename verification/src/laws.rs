//! Laws relating the two directions of the codec. The central fact is that
//! the readers invert the writers: reading the canonical rendering of a value
//! gives that value back, consuming exactly the rendered characters. The
//! lemmas here establish this from the character level upward; together with
//! `chars::lemma_unescape_escape` they carry the round-trip guarantees the
//! library makes.

use vstd::prelude::*;

use crate::chars::dec_of;
use crate::chars::digits_end;
use crate::chars::escape;
use crate::chars::is_digit;
use crate::chars::is_name_char;
use crate::chars::lemma_dec_of_digits;
use crate::chars::lemma_escape_no_specials;
use crate::chars::lemma_scan_while_is;
use crate::chars::lemma_unescape_escape;
use crate::chars::lemma_val_of_dec_of;
use crate::chars::name_end;
use crate::chars::text_end;
use crate::chars::unescape;
use crate::model::AccountIdKindView;
use crate::model::AccountIdView;
use crate::model::AccountView;
use crate::model::AmountView;
use crate::model::BalanceTypeView;
use crate::model::CodeOrProprietaryView;
use crate::model::GroupHeaderView;
use crate::model::EntryView;
use crate::parse::parse_amount_elem;
use crate::parse::parse_num_elem;
use crate::parse::parse_text_elem;
use crate::parse::finish_elem;
use crate::parse::is_close_at;
use crate::parse::parse_account;
use crate::parse::parse_account_id;
use crate::parse::parse_balance_type;
use crate::parse::parse_code_or_proprietary;
use crate::parse::parse_group_header;
use crate::parse::parse_wrapped_date;
use crate::parse::quote_end;
use crate::parse::seek;
use crate::parse::read_close;
use crate::parse::read_open;
use crate::serialize::amount_elem;
use crate::serialize::attr_open_tag;
use crate::serialize::close_tag;
use crate::serialize::concat_map;
use crate::serialize::num_elem;
use crate::serialize::open_tag;
use crate::serialize::opt_num_elem;
use crate::serialize::text_elem;
use crate::serialize::wrapped_date;
use crate::serialize::xml_of_account;
use crate::serialize::xml_of_balance;
use crate::serialize::xml_of_balance_type;
use crate::serialize::xml_of_entry;
use crate::serialize::xml_of_group_header;
use crate::serialize::xml_of_opt_balance;
use crate::serialize::xml_of_statement;
use crate::serialize::CamtErrorView;

verus! {

/// A usable element name: non-empty, made of name characters.
pub open spec fn wf_tag(t: Seq<char>) -> bool {
    t.len() >= 1 && (forall|k: int| 0 <= k < t.len() ==> is_name_char(t[k]))
}

proof fn lemma_name_end_is(s: Seq<char>, i: int, j: int)
    requires
        0 <= i <= j <= s.len(),
        forall|k: int| i <= k < j ==> is_name_char(s[k]),
        j < s.len() ==> !is_name_char(s[j]),
    ensures
        name_end(s, i) == j,
{
    lemma_scan_while_is(s, i, j, |c: char| is_name_char(c));
}

proof fn lemma_text_end_is(s: Seq<char>, i: int, j: int)
    requires
        0 <= i <= j <= s.len(),
        forall|k: int| i <= k < j ==> s[k] != '<',
        j < s.len() ==> s[j] == '<',
    ensures
        text_end(s, i) == j,
{
    lemma_scan_while_is(s, i, j, |c: char| c != '<');
}

proof fn lemma_digits_end_is(s: Seq<char>, i: int, j: int)
    requires
        0 <= i <= j <= s.len(),
        forall|k: int| i <= k < j ==> is_digit(s[k]),
        j < s.len() ==> !is_digit(s[j]),
    ensures
        digits_end(s, i) == j,
{
    lemma_scan_while_is(s, i, j, |c: char| is_digit(c));
}

proof fn lemma_quote_end_is(s: Seq<char>, i: int, j: int)
    requires
        0 <= i <= j <= s.len(),
        forall|k: int| i <= k < j ==> s[k] != '"',
        j < s.len() ==> s[j] == '"',
    ensures
        quote_end(s, i) == j,
{
    lemma_scan_while_is(s, i, j, |c: char| c != '"');
}

/// Reading an attribute-free opening tag from its rendering.
pub proof fn lemma_read_open_plain(tag: Seq<char>, r: Seq<char>)
    requires
        wf_tag(tag),
    ensures
        read_open(open_tag(tag) + r) == Ok::<
            (Seq<char>, Option<(Seq<char>, Seq<char>)>, int),
            CamtErrorView,
        >((tag, None, tag.len() as int + 2)),
{
    let s = open_tag(tag) + r;
    assert(s.len() == tag.len() + 2 + r.len());
    assert(s[0] == '<');
    assert forall|k: int| 1 <= k < 1 + tag.len() implies is_name_char(s[k]) by {
        assert(s[k] == tag[k - 1]);
    }
    assert(s[1 + tag.len() as int] == '>');
    lemma_name_end_is(s, 1, 1 + tag.len() as int);
    assert(s.subrange(1, 1 + tag.len() as int) =~= tag);
}

/// Reading an opening tag that carries one attribute from its rendering.
pub proof fn lemma_read_open_attr(tag: Seq<char>, aname: Seq<char>, aval: Seq<char>, r: Seq<char>)
    requires
        wf_tag(tag),
        wf_tag(aname),
    ensures
        read_open(attr_open_tag(tag, aname, aval) + r) == Ok::<
            (Seq<char>, Option<(Seq<char>, Seq<char>)>, int),
            CamtErrorView,
        >((tag, Some((aname, aval)), attr_open_tag(tag, aname, aval).len() as int)),
{
    let x = attr_open_tag(tag, aname, aval);
    let s = x + r;
    let e = escape(aval);
    let tl = tag.len() as int;
    let al = aname.len() as int;
    let el = e.len() as int;
    assert(x.len() == tl + al + el + 6);
    assert(s[0] == '<');
    assert forall|k: int| 1 <= k < 1 + tl implies is_name_char(s[k]) by {
        assert(s[k] == tag[k - 1]);
    }
    assert(s[1 + tl] == ' ');
    lemma_name_end_is(s, 1, 1 + tl);
    assert(s.subrange(1, 1 + tl) =~= tag);
    let ns = 2 + tl;
    assert forall|k: int| ns <= k < ns + al implies is_name_char(s[k]) by {
        assert(s[k] == aname[k - ns]);
    }
    assert(s[ns + al] == '=');
    lemma_name_end_is(s, ns, ns + al);
    assert(s.subrange(ns, ns + al) =~= aname);
    assert(s[ns + al + 1] == '"');
    let qs = ns + al + 2;
    lemma_escape_no_specials(aval);
    assert forall|k: int| qs <= k < qs + el implies s[k] != '"' by {
        assert(s[k] == e[k - qs]);
    }
    assert(s[qs + el] == '"');
    lemma_quote_end_is(s, qs, qs + el);
    assert(s.subrange(qs, qs + el) =~= e);
    lemma_unescape_escape(aval);
    assert(s[qs + el + 1] == '>');
    assert(qs + el + 2 == x.len());
}

/// Reading a closing tag from its rendering.
pub proof fn lemma_read_close(tag: Seq<char>, r: Seq<char>)
    requires
        wf_tag(tag),
    ensures
        read_close(close_tag(tag) + r) == Ok::<(Seq<char>, int), CamtErrorView>(
            (tag, tag.len() as int + 3),
        ),
{
    let s = close_tag(tag) + r;
    assert(s.len() == tag.len() + 3 + r.len());
    assert(s[0] == '<');
    assert(s[1] == '/');
    assert forall|k: int| 2 <= k < 2 + tag.len() implies is_name_char(s[k]) by {
        assert(s[k] == tag[k - 2]);
    }
    assert(s[2 + tag.len() as int] == '>');
    lemma_name_end_is(s, 2, 2 + tag.len() as int);
    assert(s.subrange(2, 2 + tag.len() as int) =~= tag);
}

/// Round trip of a text element: reading the rendering of a value gives the
/// value back, whatever reserved characters it holds, consuming exactly the
/// rendered characters.
pub proof fn lemma_text_elem_round_trip(tag: Seq<char>, v: Seq<char>, path: Seq<char>, r: Seq<char>)
    requires
        wf_tag(tag),
    ensures
        parse_text_elem(text_elem(tag, v) + r, tag, path) == Ok::<(Seq<char>, int), CamtErrorView>(
            (v, text_elem(tag, v).len() as int),
        ),
{
    reveal(parse_text_elem);
    let x = text_elem(tag, v);
    let s = x + r;
    let e = escape(v);
    let rest1 = e + (close_tag(tag) + r);
    assert(s =~= open_tag(tag) + rest1);
    lemma_read_open_plain(tag, rest1);
    let n = tag.len() + 2;
    assert(s.len() == x.len() + r.len());
    lemma_escape_no_specials(v);
    assert forall|k: int| n <= k < n + e.len() implies s[k] != '<' by {
        assert(s[k] == e[k - n]);
    }
    assert(s[n + e.len() as int] == '<');
    lemma_text_end_is(s, n as int, n + e.len() as int);
    let t = n + e.len() as int;
    assert(s.subrange(n as int, t) =~= e);
    lemma_unescape_escape(v);
    assert(s.skip(t) =~= close_tag(tag) + r);
    lemma_read_close(tag, r);
    assert(x.len() == t + tag.len() + 3);
}

/// Round trip of a numeric element: the decimal rendering of a sequence
/// number reads back as the same number.
pub proof fn lemma_num_elem_round_trip(tag: Seq<char>, n: u32, path: Seq<char>, r: Seq<char>)
    requires
        wf_tag(tag),
    ensures
        parse_num_elem(num_elem(tag, n) + r, tag, path) == Ok::<(u32, int), CamtErrorView>(
            (n, num_elem(tag, n).len() as int),
        ),
{
    reveal(parse_num_elem);
    let x = num_elem(tag, n);
    let s = x + r;
    let ds = dec_of(n as nat);
    let rest1 = ds + (close_tag(tag) + r);
    assert(s =~= open_tag(tag) + rest1);
    lemma_read_open_plain(tag, rest1);
    let n0 = tag.len() + 2;
    lemma_dec_of_digits(n as nat);
    assert forall|k: int| n0 <= k < n0 + ds.len() implies is_digit(s[k]) by {
        assert(s[k] == ds[k - n0]);
    }
    assert forall|k: int| n0 <= k < n0 + ds.len() implies s[k] != '<' by {
        assert(is_digit(s[k]));
    }
    assert(s[n0 + ds.len() as int] == '<');
    assert(!is_digit('<'));
    lemma_digits_end_is(s, n0 as int, n0 + ds.len() as int);
    lemma_text_end_is(s, n0 as int, n0 + ds.len() as int);
    let t = n0 + ds.len() as int;
    assert(s.subrange(n0 as int, t) =~= ds);
    lemma_val_of_dec_of(n as nat);
    assert(ds.len() >= 1);
    assert(s.skip(t) =~= close_tag(tag) + r);
    lemma_read_close(tag, r);
    assert(x.len() == t + tag.len() + 3);
}

/// Dual-mapping round trip for amounts: an amount rendered as one element
/// with a currency attribute and a decimal text value reads back as the
/// identical amount. This is the law behind the `Ccy` attribute-plus-content
/// mapping.
pub proof fn lemma_amount_round_trip(tag: Seq<char>, a: AmountView, path: Seq<char>, r: Seq<char>)
    requires
        wf_tag(tag),
    ensures
        parse_amount_elem(amount_elem(tag, a) + r, tag, path) == Ok::<
            (AmountView, int),
            CamtErrorView,
        >((a, amount_elem(tag, a).len() as int)),
{
    reveal(parse_amount_elem);
    reveal_strlit("Ccy");
    let x = amount_elem(tag, a);
    let s = x + r;
    let ao = attr_open_tag(tag, "Ccy"@, a.currency);
    let e = escape(a.value);
    let rest1 = e + (close_tag(tag) + r);
    assert(s =~= ao + rest1);
    assert(wf_tag("Ccy"@));
    lemma_read_open_attr(tag, "Ccy"@, a.currency, rest1);
    let n = ao.len() as int;
    lemma_escape_no_specials(a.value);
    assert forall|k: int| n <= k < n + e.len() implies s[k] != '<' by {
        assert(s[k] == e[k - n]);
    }
    assert(s[n + e.len() as int] == '<');
    lemma_text_end_is(s, n, n + e.len() as int);
    let t = n + e.len() as int;
    assert(s.subrange(n, t) =~= e);
    lemma_unescape_escape(a.value);
    assert(s.skip(t) =~= close_tag(tag) + r);
    lemma_read_close(tag, r);
    assert(x.len() == t + tag.len() + 3);
    assert(AmountView { currency: a.currency, value: a.value } =~= a);
}

/// Optional-field omission: a statement whose sequence numbers are absent
/// serializes with no sequence-number element at all — its rendering is
/// exactly the concatenation of the remaining parts, with nothing in the
/// places the two optional elements would occupy.
pub proof fn lemma_optional_field_omission(st: crate::model::StatementView)
    requires
        st.electronic_sequence_number is None,
        st.legal_sequence_number is None,
    ensures
        xml_of_statement(st) == open_tag("Stmt"@) + text_elem("Id"@, st.id) + text_elem(
            "CreDtTm"@,
            st.creation_date_time,
        ) + xml_of_account(st.account) + xml_of_opt_balance(st.balance) + concat_map(
            st.entries,
            |e: EntryView| xml_of_entry(e),
        ) + close_tag("Stmt"@),
{
    reveal(xml_of_statement);
    assert(opt_num_elem("ElctrncSeqNb"@, st.electronic_sequence_number) =~= Seq::<char>::empty());
    assert(opt_num_elem("LglSeqNb"@, st.legal_sequence_number) =~= Seq::<char>::empty());
    assert(xml_of_statement(st) =~= open_tag("Stmt"@) + text_elem("Id"@, st.id) + text_elem(
        "CreDtTm"@,
        st.creation_date_time,
    ) + xml_of_account(st.account) + xml_of_opt_balance(st.balance) + concat_map(
        st.entries,
        |e: EntryView| xml_of_entry(e),
    ) + close_tag("Stmt"@));
}

/// Ordering preservation on the writing side: two entries serialize as two
/// sibling elements in sequence order, the first one's rendering standing
/// wholly before the second one's.
pub proof fn lemma_ordering_preservation(a: EntryView, b: EntryView)
    ensures
        concat_map(seq![a, b], |e: EntryView| xml_of_entry(e)) == xml_of_entry(a) + xml_of_entry(
            b,
        ),
{
    let f = |e: EntryView| xml_of_entry(e);
    let s = seq![a, b];
    assert(s.skip(1) =~= seq![b]);
    assert(seq![b].skip(1) =~= Seq::<EntryView>::empty());
    assert(concat_map(seq![b], f) == f(b) + concat_map(Seq::<EntryView>::empty(), f));
    assert(f(b) + Seq::<char>::empty() =~= f(b));
    assert(concat_map(s, f) == f(a) + concat_map(seq![b], f));
}

/// The search for a child finds it at once when the input begins with the
/// child's own opening tag.
pub proof fn lemma_seek_hit(x: Seq<char>, r: Seq<char>, tag: Seq<char>, stops: Seq<Seq<char>>)
    requires
        x.len() >= 2,
        x[0] == '<',
        x[1] != '/',
        read_open(x + r) is Ok,
        (read_open(x + r))->Ok_0.0 == tag,
    ensures
        seek(x + r, tag, stops) == Ok::<(bool, int), CamtErrorView>((true, 0)),
{
    let s = x + r;
    assert(s[0] == '<');
    lemma_text_end_is(s, 0, 0);
    assert(s[1] == x[1]);
    assert(s.skip(0) =~= s);
}

/// The search stops without finding the child when a sibling named in
/// `stops` comes first.
pub proof fn lemma_seek_at_stop(
    x: Seq<char>,
    r: Seq<char>,
    tag: Seq<char>,
    tag2: Seq<char>,
    stops: Seq<Seq<char>>,
)
    requires
        x.len() >= 2,
        x[0] == '<',
        x[1] != '/',
        read_open(x + r) is Ok,
        (read_open(x + r))->Ok_0.0 == tag2,
        tag2 != tag,
        stops.contains(tag2),
    ensures
        seek(x + r, tag, stops) == Ok::<(bool, int), CamtErrorView>((false, 0)),
{
    let s = x + r;
    assert(s[0] == '<');
    lemma_text_end_is(s, 0, 0);
    assert(s[1] == x[1]);
    assert(s.skip(0) =~= s);
}

/// Closing a container from its rendered end tag.
pub proof fn lemma_finish_elem(tag: Seq<char>, r: Seq<char>)
    requires
        wf_tag(tag),
    ensures
        finish_elem(close_tag(tag) + r, tag) == Ok::<int, CamtErrorView>(tag.len() as int + 3),
{
    let s = close_tag(tag) + r;
    assert(s[0] == '<');
    assert(s[1] == '/');
    lemma_text_end_is(s, 0, 0);
    assert(is_close_at(s, 0));
    assert(s.skip(0) =~= s);
    lemma_read_close(tag, r);
}

/// Round trip of the group header.
#[verifier::rlimit(100)]
pub proof fn lemma_group_header_round_trip(g: GroupHeaderView, r: Seq<char>)
    ensures
        parse_group_header(xml_of_group_header(g) + r) == Ok::<
            (GroupHeaderView, int),
            CamtErrorView,
        >((g, xml_of_group_header(g).len() as int)),
{
    reveal(parse_group_header);
    reveal(xml_of_group_header);
    reveal_strlit("GrpHdr");
    reveal_strlit("MsgId");
    reveal_strlit("CreDtTm");
    assert(wf_tag("GrpHdr"@));
    assert(wf_tag("MsgId"@));
    assert(wf_tag("CreDtTm"@));
    let x1 = text_elem("MsgId"@, g.message_id);
    let x2 = text_elem("CreDtTm"@, g.creation_date_time);
    let cl = close_tag("GrpHdr"@);
    let s = xml_of_group_header(g) + r;
    assert(s =~= open_tag("GrpHdr"@) + (x1 + (x2 + (cl + r))));
    lemma_read_open_plain("GrpHdr"@, x1 + (x2 + (cl + r)));
    let n0 = "GrpHdr"@.len() as int + 2;
    let s1 = x1 + (x2 + (cl + r));
    assert(s.skip(n0) =~= s1);
    // first child: MsgId
    assert(s1 =~= open_tag("MsgId"@) + (escape(g.message_id) + (close_tag("MsgId"@) + (x2 + (cl
        + r)))));
    lemma_read_open_plain(
        "MsgId"@,
        escape(g.message_id) + (close_tag("MsgId"@) + (x2 + (cl + r))),
    );
    assert(x1[0] == '<' && x1[1] == 'M') by {
        assert(x1 =~= open_tag("MsgId"@) + (escape(g.message_id) + close_tag("MsgId"@)));
    }
    assert(x1 + (x2 + (cl + r)) =~= s1);
    lemma_seek_hit(x1, x2 + (cl + r), "MsgId"@, Seq::empty());
    lemma_text_elem_round_trip("MsgId"@, g.message_id, "GrpHdr/MsgId"@, x2 + (cl + r));
    assert(s1.skip(0) =~= s1);
    let m1 = x1.len() as int;
    // second child: CreDtTm
    let s2 = x2 + (cl + r);
    assert(s1.skip(m1) =~= s2);
    assert(s.skip(n0 + m1) =~= s2);
    assert(s2 =~= open_tag("CreDtTm"@) + (escape(g.creation_date_time) + (close_tag("CreDtTm"@)
        + (cl + r))));
    lemma_read_open_plain(
        "CreDtTm"@,
        escape(g.creation_date_time) + (close_tag("CreDtTm"@) + (cl + r)),
    );
    assert(x2[0] == '<' && x2[1] == 'C') by {
        assert(x2 =~= open_tag("CreDtTm"@) + (escape(g.creation_date_time) + close_tag(
            "CreDtTm"@,
        )));
    }
    lemma_seek_hit(x2, cl + r, "CreDtTm"@, Seq::empty());
    lemma_text_elem_round_trip("CreDtTm"@, g.creation_date_time, "GrpHdr/CreDtTm"@, cl + r);
    assert(s2.skip(0) =~= s2);
    let m2 = x2.len() as int;
    // the closing tag
    assert(s.skip(n0 + m1 + m2) =~= cl + r);
    lemma_finish_elem("GrpHdr"@, r);
    assert(xml_of_group_header(g).len() == n0 + m1 + m2 + cl.len());
    assert(GroupHeaderView { message_id: g.message_id, creation_date_time: g.creation_date_time }
        =~= g);
}

/// Round trip of a wrapped date element (`BookgDt`, `ValDt`, the balance
/// `Dt`).
#[verifier::rlimit(100)]
pub proof fn lemma_wrapped_date_round_trip(
    tag: Seq<char>,
    date: Seq<char>,
    path: Seq<char>,
    r: Seq<char>,
)
    requires
        wf_tag(tag),
    ensures
        parse_wrapped_date(wrapped_date(tag, date) + r, tag, path) == Ok::<
            (Seq<char>, int),
            CamtErrorView,
        >((date, wrapped_date(tag, date).len() as int)),
{
    reveal(parse_wrapped_date);
    reveal_strlit("Dt");
    assert(wf_tag("Dt"@));
    let x1 = text_elem("Dt"@, date);
    let cl = close_tag(tag);
    let s = wrapped_date(tag, date) + r;
    assert(s =~= open_tag(tag) + (x1 + (cl + r)));
    lemma_read_open_plain(tag, x1 + (cl + r));
    let n0 = tag.len() as int + 2;
    let s1 = x1 + (cl + r);
    assert(s.skip(n0) =~= s1);
    assert(s1 =~= open_tag("Dt"@) + (escape(date) + (close_tag("Dt"@) + (cl + r))));
    lemma_read_open_plain("Dt"@, escape(date) + (close_tag("Dt"@) + (cl + r)));
    assert(x1[0] == '<' && x1[1] == 'D') by {
        assert(x1 =~= open_tag("Dt"@) + (escape(date) + close_tag("Dt"@)));
    }
    lemma_seek_hit(x1, cl + r, "Dt"@, Seq::empty());
    lemma_text_elem_round_trip("Dt"@, date, path, cl + r);
    assert(s1.skip(0) =~= s1);
    let m1 = x1.len() as int;
    assert(s.skip(n0 + m1) =~= cl + r);
    lemma_finish_elem(tag, r);
    assert(wrapped_date(tag, date).len() == n0 + m1 + cl.len());
}

/// Round trip of the balance type code down through `CdOrPrtry/Cd`.
#[verifier::rlimit(100)]
pub proof fn lemma_balance_type_round_trip(code: Seq<char>, r: Seq<char>)
    ensures
        parse_balance_type(xml_of_balance_type(code) + r) == Ok::<(Seq<char>, int), CamtErrorView>(
            (code, xml_of_balance_type(code).len() as int),
        ),
{
    reveal(parse_balance_type);
    reveal(parse_code_or_proprietary);
    reveal(xml_of_balance_type);
    reveal_strlit("Tp");
    reveal_strlit("CdOrPrtry");
    reveal_strlit("Cd");
    assert(wf_tag("Tp"@));
    assert(wf_tag("CdOrPrtry"@));
    assert(wf_tag("Cd"@));
    let x1 = text_elem("Cd"@, code);
    let ccl = close_tag("CdOrPrtry"@);
    let tcl = close_tag("Tp"@);
    let xc = open_tag("CdOrPrtry"@) + x1 + ccl;
    let s = xml_of_balance_type(code) + r;
    assert(s =~= open_tag("Tp"@) + (xc + (tcl + r)));
    lemma_read_open_plain("Tp"@, xc + (tcl + r));
    let n0 = "Tp"@.len() as int + 2;
    let s1 = xc + (tcl + r);
    assert(s.skip(n0) =~= s1);
    // the CdOrPrtry child
    assert(s1 =~= open_tag("CdOrPrtry"@) + (x1 + (ccl + (tcl + r))));
    lemma_read_open_plain("CdOrPrtry"@, x1 + (ccl + (tcl + r)));
    assert(xc[0] == '<' && xc[1] == 'C');
    lemma_seek_hit(xc, tcl + r, "CdOrPrtry"@, Seq::empty());
    assert(s1.skip(0) =~= s1);
    // inside CdOrPrtry: the Cd text child
    let nc = "CdOrPrtry"@.len() as int + 2;
    let sc = x1 + (ccl + (tcl + r));
    assert(s1.skip(nc) =~= sc);
    assert(sc =~= open_tag("Cd"@) + (escape(code) + (close_tag("Cd"@) + (ccl + (tcl + r)))));
    lemma_read_open_plain("Cd"@, escape(code) + (close_tag("Cd"@) + (ccl + (tcl + r))));
    assert(x1[0] == '<' && x1[1] == 'C') by {
        assert(x1 =~= open_tag("Cd"@) + (escape(code) + close_tag("Cd"@)));
    }
    lemma_seek_hit(x1, ccl + (tcl + r), "Cd"@, Seq::empty());
    lemma_text_elem_round_trip("Cd"@, code, "Bal/Tp/CdOrPrtry/Cd"@, ccl + (tcl + r));
    assert(sc.skip(0) =~= sc);
    let mc = x1.len() as int;
    assert(s1.skip(nc + mc) =~= ccl + (tcl + r));
    lemma_finish_elem("CdOrPrtry"@, tcl + r);
    let m1 = nc + mc + ccl.len() as int;
    assert(xc.len() == m1);
    // close Tp
    assert(s.skip(n0 + m1) =~= tcl + r);
    lemma_finish_elem("Tp"@, r);
    assert(xml_of_balance_type(code).len() == n0 + m1 + tcl.len());
}

/// Round trip of the account identification, for both identifier choices.
#[verifier::rlimit(100)]
pub proof fn lemma_account_round_trip(a: AccountView, r: Seq<char>)
    ensures
        parse_account(xml_of_account(a) + r) == Ok::<(AccountView, int), CamtErrorView>(
            (a, xml_of_account(a).len() as int),
        ),
{
    reveal(parse_account);
    reveal(parse_account_id);
    reveal(xml_of_account);
    reveal_strlit("Acct");
    reveal_strlit("Id");
    reveal_strlit("IBAN");
    reveal_strlit("Othr");
    assert(wf_tag("Acct"@));
    assert(wf_tag("Id"@));
    assert(wf_tag("IBAN"@));
    assert(wf_tag("Othr"@));
    let inner = match a.id.id {
        AccountIdKindView::Iban(ib) => text_elem("IBAN"@, ib),
        AccountIdKindView::Other(ot) => text_elem("Othr"@, ot),
    };
    let icl = close_tag("Id"@);
    let acl = close_tag("Acct"@);
    let xi = open_tag("Id"@) + inner + icl;
    let s = xml_of_account(a) + r;
    assert(s =~= open_tag("Acct"@) + (xi + (acl + r))) by {}
    lemma_read_open_plain("Acct"@, xi + (acl + r));
    let n0 = "Acct"@.len() as int + 2;
    let s1 = xi + (acl + r);
    assert(s.skip(n0) =~= s1) by {}
    assert(s1 =~= open_tag("Id"@) + (inner + (icl + (acl + r)))) by {}
    lemma_read_open_plain("Id"@, inner + (icl + (acl + r)));
    assert(xi[0] == '<' && xi[1] == 'I');
    lemma_seek_hit(xi, acl + r, "Id"@, Seq::empty());
    assert(s1.skip(0) =~= s1) by {}
    // inside Id
    let ni = "Id"@.len() as int + 2;
    let si = inner + (icl + (acl + r));
    assert(s1.skip(ni) =~= si) by {}
    match a.id.id {
        AccountIdKindView::Iban(ib) => {
            assert(si =~= open_tag("IBAN"@) + (escape(ib) + (close_tag("IBAN"@) + (icl + (acl
                + r))))) by {}
            lemma_read_open_plain("IBAN"@, escape(ib) + (close_tag("IBAN"@) + (icl + (acl + r))));
            assert(inner[0] == '<' && inner[1] == 'I') by {
                assert(inner =~= open_tag("IBAN"@) + (escape(ib) + close_tag("IBAN"@)));
            }
            lemma_seek_hit(inner, icl + (acl + r), "IBAN"@, seq!["Othr"@]);
            lemma_text_elem_round_trip("IBAN"@, ib, "Acct/Id/IBAN"@, icl + (acl + r));
            assert(si.skip(0) =~= si) by {}
            let mi = inner.len() as int;
            assert(s1.skip(ni + mi) =~= icl + (acl + r)) by {}
            lemma_finish_elem("Id"@, acl + r);
            assert(AccountIdView { id: AccountIdKindView::Iban(ib) } =~= a.id);
        },
        AccountIdKindView::Other(ot) => {
            assert(si =~= open_tag("Othr"@) + (escape(ot) + (close_tag("Othr"@) + (icl + (acl
                + r))))) by {}
            lemma_read_open_plain("Othr"@, escape(ot) + (close_tag("Othr"@) + (icl + (acl + r))));
            assert(inner[0] == '<' && inner[1] == 'O') by {
                assert(inner =~= open_tag("Othr"@) + (escape(ot) + close_tag("Othr"@)));
            }
            assert("Othr"@ != "IBAN"@);
            assert(seq!["Othr"@].contains("Othr"@)) by {
                assert(seq!["Othr"@][0] == "Othr"@);
            }
            lemma_seek_at_stop(inner, icl + (acl + r), "IBAN"@, "Othr"@, seq!["Othr"@]);
            lemma_seek_hit(inner, icl + (acl + r), "Othr"@, Seq::empty());
            lemma_text_elem_round_trip("Othr"@, ot, "Acct/Id"@, icl + (acl + r));
            assert(si.skip(0) =~= si) by {}
            let mi = inner.len() as int;
            assert(s1.skip(ni + mi) =~= icl + (acl + r)) by {}
            lemma_finish_elem("Id"@, acl + r);
            assert(AccountIdView { id: AccountIdKindView::Other(ot) } =~= a.id);
        },
    }
    let m1 = xi.len() as int;
    assert(s.skip(n0 + m1) =~= acl + r) by {}
    lemma_finish_elem("Acct"@, r);
    assert(xml_of_account(a).len() == n0 + m1 + acl.len());
    assert(AccountView { id: a.id } =~= a);
}

} // verus!
