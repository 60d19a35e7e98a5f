//! The answer chain: one line per address, alias or service-binding hint.
use vstd::prelude::*;
use crate::message::{
    RData, RDataModel, Record, RecordModel, SvcParam, SvcParamModel, SvcValue,
    SvcValueModel, KEY_ECH_CONFIG, view_params, view_records,
};
use crate::name::view_labels;
use crate::name::labels_valid;
use crate::text::{ipv4_text, ipv6_text, name_string, name_text, push_char, push_ipv4, push_ipv6};

verus! {

/// The primary arrow, `⇒`, or the continuation arrow, `→`.
pub open spec fn arrow(primary: bool) -> char {
    if primary { '\u{21D2}' } else { '\u{2192}' }
}

/// `<subject> <arrow> <value>`.
pub open spec fn line(subject: Seq<char>, primary: bool, value: Seq<char>) -> Seq<char> {
    subject + seq![' ', arrow(primary), ' '] + value
}

/// Every address of a hint has `size` bytes.
pub open spec fn hints_wf(a: Seq<Seq<u8>>, size: nat) -> bool {
    forall|i: int| 0 <= i < a.len() ==> (#[trigger] a[i]).len() == size
}

/// Addresses have their size: four bytes for IPv4, sixteen for IPv6.
pub open spec fn param_wf(p: SvcParamModel) -> bool {
    match p.value {
        SvcValueModel::Ipv4Hint(a) => hints_wf(a, 4),
        SvcValueModel::Ipv6Hint(a) => hints_wf(a, 16),
        SvcValueModel::Other(_) => true,
    }
}

/// Every parameter's addresses have their size.
pub open spec fn params_wf(ps: Seq<SvcParamModel>) -> bool {
    forall|i: int| 0 <= i < ps.len() ==> param_wf(#[trigger] ps[i])
}

/// A payload's addresses have their size.
pub open spec fn rdata_wf(d: RDataModel) -> bool {
    match d {
        RDataModel::A(a) => a.len() == 4,
        RDataModel::Aaaa(a) => a.len() == 16,
        RDataModel::Cname(n) => labels_valid(n),
        RDataModel::Https { params, .. } => params_wf(params),
        _ => true,
    }
}

/// Every answer's addresses have their size.
pub open spec fn answers_wf(rs: Seq<RecordModel>) -> bool {
    forall|i: int| 0 <= i < rs.len() ==> rdata_wf(#[trigger] rs[i].rdata)
}

/// The texts of the hint addresses of one parameter.
pub open spec fn param_hints(p: SvcParamModel) -> Seq<Seq<char>> {
    match p.value {
        SvcValueModel::Ipv4Hint(a) => a.map_values(|x: Seq<u8>| ipv4_text(x)),
        SvcValueModel::Ipv6Hint(a) => a.map_values(|x: Seq<u8>| ipv6_text(x)),
        SvcValueModel::Other(_) => Seq::empty(),
    }
}

/// The texts of all hint addresses, in the order of the parameters.
pub open spec fn hint_texts(ps: Seq<SvcParamModel>) -> Seq<Seq<char>>
    decreases ps.len(),
{
    if ps.len() == 0 {
        Seq::empty()
    } else {
        hint_texts(ps.drop_last()) + param_hints(ps.last())
    }
}

/// Whether some parameter carries an ECH configuration.
pub open spec fn has_ech(ps: Seq<SvcParamModel>) -> bool {
    exists|i: int| 0 <= i < ps.len() && (#[trigger] ps[i]).key == KEY_ECH_CONFIG
}

/// `HTTPS ECH` or `HTTPS`.
pub open spec fn tag_text(ech: bool) -> Seq<char> {
    if ech {
        seq!['H', 'T', 'T', 'P', 'S', ' ', 'E', 'C', 'H']
    } else {
        seq!['H', 'T', 'T', 'P', 'S']
    }
}

/// `HTTPS ECH` where a parameter carries an ECH configuration, else `HTTPS`.
pub open spec fn https_tag(ps: Seq<SvcParamModel>) -> Seq<char> {
    tag_text(has_ech(ps))
}

/// One line per hint: the first with the primary arrow, the others with the continuation one.
pub open spec fn hint_lines(subject: Seq<char>, tag: Seq<char>, h: Seq<Seq<char>>) -> Seq<Seq<char>> {
    Seq::new(h.len(), |k: int| line(subject, k == 0, tag + seq![' '] + h[k]))
}

/// The lines of one record, given the outer arrow. An HTTPS record starts its own arrows afresh.
pub open spec fn record_lines(subject: Seq<char>, d: RDataModel, primary: bool) -> Seq<Seq<char>> {
    match d {
        RDataModel::A(a) => seq![line(subject, primary, ipv4_text(a))],
        RDataModel::Aaaa(a) => seq![line(subject, primary, ipv6_text(a))],
        RDataModel::Cname(n) => seq![line(subject, primary, name_text(n))],
        RDataModel::Https { params, .. } => hint_lines(subject, https_tag(params), hint_texts(params)),
        RDataModel::Other(_) => Seq::empty(),
    }
}

/// The lines of the answers: the first answer has the primary arrow, every later one
/// the continuation arrow, whether or not an earlier one printed anything.
pub open spec fn chain_lines(subject: Seq<char>, rs: Seq<RecordModel>) -> Seq<Seq<char>>
    decreases rs.len(),
{
    if rs.len() == 0 {
        Seq::empty()
    } else {
        chain_lines(subject, rs.drop_last()) + record_lines(subject, rs.last().rdata, rs.len() == 1)
    }
}

/// The texts of a sequence of lines.
pub open spec fn view_lines(v: Seq<String>) -> Seq<Seq<char>> {
    v.map_values(|l: String| l@)
}

/// Starts a line: the subject, the arrow and the spaces round it.
fn start_line(subject: &String, primary: bool) -> (r: String)
    ensures
        r@ == subject@ + seq![' ', arrow(primary), ' '],
{
    let mut r = subject.clone();
    push_char(&mut r, ' ');
    push_char(&mut r, if primary { '\u{21D2}' } else { '\u{2192}' });
    push_char(&mut r, ' ');
    assert(r@ =~= subject@ + seq![' ', arrow(primary), ' ']);
    r
}


fn push_tag(s: &mut String, ech: bool)
    ensures
        final(s)@ == old(s)@ + tag_text(ech),
{
    push_char(s, 'H');
    push_char(s, 'T');
    push_char(s, 'T');
    push_char(s, 'P');
    push_char(s, 'S');
    if ech {
        push_char(s, ' ');
        push_char(s, 'E');
        push_char(s, 'C');
        push_char(s, 'H');
    }
    assert(final(s)@ =~= old(s)@ + tag_text(ech));
}

/// Appends one line per address of a hint, continuing the numbering of `h`.
fn push_hint_lines(
    out: &mut Vec<String>,
    subject: &String,
    ech: bool,
    addrs: &Vec<Vec<u8>>,
    v6: bool,
    Ghost(tag): Ghost<Seq<char>>,
    Ghost(h): Ghost<Seq<Seq<char>>>,
)
    requires
        tag == tag_text(ech),
        view_lines(old(out)@) == hint_lines(subject@, tag, h),
        hints_wf(view_labels(addrs@), if v6 { 16 } else { 4 }),
    ensures
        view_lines(final(out)@) == hint_lines(
            subject@,
            tag,
            h + view_labels(addrs@).map_values(
                |x: Seq<u8>|
                    if v6 {
                        ipv6_text(x)
                    } else {
                        ipv4_text(x)
                    },
            ),
        ),
{
    let ghost texts = view_labels(addrs@).map_values(
        |x: Seq<u8>|
            if v6 {
                ipv6_text(x)
            } else {
                ipv4_text(x)
            },
    );
    assert(view_lines(out@).len() == out@.len());
    assert(texts.len() == addrs@.len());
    let mut j: usize = 0;
    while j < addrs.len()
        invariant
            j <= addrs@.len(),
            tag == tag_text(ech),
            texts.len() == addrs@.len(),
            texts == view_labels(addrs@).map_values(
                |x: Seq<u8>|
                    if v6 {
                        ipv6_text(x)
                    } else {
                        ipv4_text(x)
                    },
            ),
            hints_wf(view_labels(addrs@), if v6 { 16 } else { 4 }),
            out@.len() == h.len() + j,
            view_lines(out@) == hint_lines(subject@, tag, h + texts.subrange(0, j as int)),
        decreases addrs@.len() - j,
    {
        let a = &addrs[j];
        assert(view_labels(addrs@)[j as int] == a@);
        let mut l = start_line(subject, out.len() == 0);
        let ghost l0 = l@;
        push_tag(&mut l, ech);
        assert(l@ == l0 + tag);
        push_char(&mut l, ' ');
        let ghost l1 = l@;
        assert(l1 =~= subject@ + seq![' ', arrow(out@.len() == 0), ' '] + tag + seq![' ']);
        if v6 {
            push_ipv6(&mut l, a.as_slice());
        } else {
            push_ipv4(&mut l, a.as_slice(), 0);
            assert(a@.subrange(0, 4) =~= a@);
        }
        let ghost prev = h + texts.subrange(0, j as int);
        let ghost before = out@;
        assert(l@ == l1 + texts[j as int]);
        assert(out@.len() == prev.len());
        assert(texts[j as int] == (if v6 { ipv6_text(a@) } else { ipv4_text(a@) }));
        assert(l@ =~= line(subject@, prev.len() == 0, tag + seq![' '] + texts[j as int]));
        let ghost lv = l@;
        out.push(l);
        assert(view_lines(out@) =~= view_lines(before).push(lv));
        assert(hint_lines(subject@, tag, prev.push(texts[j as int])) =~= hint_lines(
            subject@,
            tag,
            prev,
        ).push(line(subject@, prev.len() == 0, tag + seq![' '] + texts[j as int])));
        assert(h + texts.subrange(0, j + 1) =~= prev.push(texts[j as int]));
        assert(view_lines(out@) =~= hint_lines(subject@, tag, prev.push(texts[j as int])));
        j = j + 1;
    }
    assert(texts.subrange(0, j as int) =~= texts);
}


/// Appends the hint lines of an HTTPS record; its arrows start afresh.
fn push_https_lines(out: &mut Vec<String>, subject: &String, params: &Vec<SvcParam>)
    requires
        params_wf(view_params(params@)),
    ensures
        view_lines(final(out)@) == view_lines(old(out)@) + hint_lines(
            subject@,
            https_tag(view_params(params@)),
            hint_texts(view_params(params@)),
        ),
{
    let ghost ps = view_params(params@);
    let mut ech = false;
    let mut i: usize = 0;
    while i < params.len()
        invariant
            i <= params@.len(),
            ps == view_params(params@),
            ech == exists|k: int| 0 <= k < i && (#[trigger] ps[k]).key == KEY_ECH_CONFIG,
        decreases params@.len() - i,
    {
        assert(ps[i as int] == params@[i as int]@);
        if params[i].key == KEY_ECH_CONFIG {
            ech = true;
            assert(ps[i as int].key == KEY_ECH_CONFIG);
        }
        i = i + 1;
    }
    let ghost tag = https_tag(ps);
    let mut lines: Vec<String> = Vec::new();
    assert(view_lines(lines@) =~= hint_lines(subject@, tag, hint_texts(ps.subrange(0, 0))));
    let mut i: usize = 0;
    while i < params.len()
        invariant
            i <= params@.len(),
            ps == view_params(params@),
            tag == https_tag(ps),
            tag == tag_text(ech),
            forall|k: int| 0 <= k < params@.len() ==> param_wf(#[trigger] ps[k]),
            view_lines(lines@) == hint_lines(subject@, tag, hint_texts(ps.subrange(0, i as int))),
        decreases params@.len() - i,
    {
        let ghost h = hint_texts(ps.subrange(0, i as int));
        assert(ps.subrange(0, i + 1).drop_last() =~= ps.subrange(0, i as int));
        assert(ps[i as int] == params@[i as int]@);
        assert(param_wf(ps[i as int]));
        match &params[i].value {
            SvcValue::Ipv4Hint(addrs) => {
                assert(ps[i as int].value == SvcValueModel::Ipv4Hint(view_labels(addrs@)));
                push_hint_lines(&mut lines, subject, ech, addrs, false, Ghost(tag), Ghost(h));
            },
            SvcValue::Ipv6Hint(addrs) => {
                assert(ps[i as int].value == SvcValueModel::Ipv6Hint(view_labels(addrs@)));
                push_hint_lines(&mut lines, subject, ech, addrs, true, Ghost(tag), Ghost(h));
            },
            SvcValue::Other(_) => {
                assert(h + Seq::<Seq<char>>::empty() =~= h);
            },
        }
        i = i + 1;
    }
    assert(ps.subrange(0, i as int) =~= ps);
    let ghost before = view_lines(out@);
    let mut k: usize = 0;
    while k < lines.len()
        invariant
            k <= lines@.len(),
            view_lines(out@) == before + view_lines(lines@).subrange(0, k as int),
        decreases lines@.len() - k,
    {
        let ghost prev = view_lines(out@);
        out.push(lines[k].clone());
        assert(view_lines(out@) =~= prev.push(lines@[k as int]@));
        k = k + 1;
        assert(view_lines(out@) =~= before + view_lines(lines@).subrange(0, k as int));
    }
    assert(view_lines(lines@).subrange(0, k as int) =~= view_lines(lines@));
}

/// Appends the lines of one record, given the outer arrow.
fn push_record_lines(out: &mut Vec<String>, subject: &String, rdata: &RData, primary: bool)
    requires
        rdata_wf(rdata@),
    ensures
        view_lines(final(out)@) == view_lines(old(out)@) + record_lines(subject@, rdata@, primary),
{
    match rdata {
        RData::A(a) => {
            let mut l = start_line(subject, primary);
            push_ipv4(&mut l, a.as_slice(), 0);
            assert(a@.subrange(0, 4) =~= a@);
            out.push(l);
        },
        RData::Aaaa(a) => {
            let mut l = start_line(subject, primary);
            push_ipv6(&mut l, a.as_slice());
            out.push(l);
        },
        RData::Cname(n) => {
            let mut l = start_line(subject, primary);
            let t = name_string(n);
            l.append(t.as_str());
            out.push(l);
        },
        RData::Https(svcb) => {
            let ghost ps = view_params(svcb.params@);
            assert(rdata@ == RDataModel::Https {
                priority: svcb.priority,
                target: view_labels(svcb.target@),
                params: ps,
            });
            push_https_lines(out, subject, &svcb.params);
            return ;
        },
        RData::Other(_) => {},
    }
    assert(view_lines(final(out)@) =~= view_lines(old(out)@) + record_lines(subject@, rdata@, primary));
}

/// Renders the answers of a message as lines about `subject`: the first answer
/// takes the primary arrow, every later answer the continuation arrow.
pub fn render_answers(subject: &String, answers: &Vec<Record>) -> (r: Vec<String>)
    requires
        answers_wf(view_records(answers@)),
    ensures
        view_lines(r@) == chain_lines(subject@, view_records(answers@)),
{
    let ghost rs = view_records(answers@);
    let mut out: Vec<String> = Vec::new();
    let mut i: usize = 0;
    assert(view_lines(out@) =~= chain_lines(subject@, rs.subrange(0, 0)));
    while i < answers.len()
        invariant
            i <= answers@.len(),
            rs == view_records(answers@),
            answers_wf(rs),
            view_lines(out@) == chain_lines(subject@, rs.subrange(0, i as int)),
        decreases answers@.len() - i,
    {
        assert(rs[i as int] == answers@[i as int]@);
        assert(rdata_wf(rs[i as int].rdata));
        assert(rs.subrange(0, i + 1).drop_last() =~= rs.subrange(0, i as int));
        push_record_lines(&mut out, subject, &answers[i].rdata, i == 0);
        i = i + 1;
    }
    assert(rs.subrange(0, i as int) =~= rs);
    out
}

} // verus!
