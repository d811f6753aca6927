use vstd::prelude::*;
use vstd::string::StrSliceExecFns;
use vstd::string::StringExecFns;
use crate::error::VaultError;

verus! {

/// One stored secret under the name that the user gave it.
pub struct TotpEntry {
    pub name: String,
    pub secret: String,
}

impl View for TotpEntry {
    type V = (Seq<char>, Seq<char>);

    open spec fn view(&self) -> (Seq<char>, Seq<char>) {
        (self.name@, self.secret@)
    }
}

/// The entries of a list as `(name, secret)` pairs.
pub open spec fn entries_view(v: Seq<TotpEntry>) -> Seq<(Seq<char>, Seq<char>)> {
    v.map_values(|e: TotpEntry| e@)
}

/// A name can be stored: it holds neither the delimiter nor a line break.
pub open spec fn valid_name(n: Seq<char>) -> bool {
    !n.contains(':') && !n.contains('\n')
}

/// A secret can be stored: it holds no line break.
pub open spec fn valid_secret(s: Seq<char>) -> bool {
    !s.contains('\n')
}

pub open spec fn valid_entries(es: Seq<(Seq<char>, Seq<char>)>) -> bool {
    forall|i: int| 0 <= i < es.len() ==> valid_name(#[trigger] es[i].0) && valid_secret(es[i].1)
}

/// The text of one record: `name:secret` and a line break.
pub open spec fn record(name: Seq<char>, secret: Seq<char>) -> Seq<char> {
    name + seq![':'] + secret + seq!['\n']
}

/// The records of a list, one after another, in list order.
pub open spec fn encoded(es: Seq<(Seq<char>, Seq<char>)>) -> Seq<char>
    decreases es.len(),
{
    if es.len() == 0 {
        Seq::empty()
    } else {
        record(es[0].0, es[0].1) + encoded(es.drop_first())
    }
}

/// The index of the first `c` in `s`, or the length of `s` where there is none.
pub open spec fn first_index(s: Seq<char>, c: char) -> nat
    decreases s.len(),
{
    if s.len() == 0 {
        0
    } else if s[0] == c {
        0
    } else {
        1 + first_index(s.drop_first(), c)
    }
}

/// The entries that a text holds: it is cut into lines at each line break (a
/// last line without one counts as well), and each line at its first `:`
/// into name and secret. `None` where some line holds no `:`.
pub open spec fn decoded(s: Seq<char>) -> Option<Seq<(Seq<char>, Seq<char>)>>
    decreases s.len(),
{
    if s.len() == 0 {
        Some(Seq::empty())
    } else {
        let end = first_index(s, '\n');
        let line = s.take(end as int);
        let rest = if end < s.len() { s.skip(end as int + 1) } else { Seq::empty() };
        let colon = first_index(line, ':');
        if colon == line.len() {
            None
        } else {
            match decoded(rest) {
                Some(tail) => Some(seq![(line.take(colon as int), line.skip(colon as int + 1))] + tail),
                None => None,
            }
        }
    }
}

pub open spec fn prepend(
    head: Seq<(Seq<char>, Seq<char>)>,
    tail: Option<Seq<(Seq<char>, Seq<char>)>>,
) -> Option<Seq<(Seq<char>, Seq<char>)>> {
    match tail {
        Some(t) => Some(head + t),
        None => None,
    }
}

proof fn lemma_first_index(s: Seq<char>, c: char, k: int)
    requires
        0 <= k <= s.len(),
        forall|i: int| 0 <= i < k ==> s[i] != c,
        k == s.len() || s[k] == c,
    ensures
        first_index(s, c) == k,
    decreases k,
{
    if k > 0 {
        let d = s.drop_first();
        assert forall|i: int| 0 <= i < k - 1 implies d[i] != c by {
            assert(d[i] == s[i + 1]);
        }
        lemma_first_index(d, c, k - 1);
    }
}

/// Appending one entry appends its record to the encoding.
pub proof fn lemma_encoded_push(es: Seq<(Seq<char>, Seq<char>)>, e: (Seq<char>, Seq<char>))
    ensures
        encoded(es.push(e)) == encoded(es) + record(e.0, e.1),
    decreases es.len(),
{
    if es.len() == 0 {
        assert(es.push(e).drop_first() =~= Seq::empty());
        assert(es.push(e)[0] == e);
        assert(encoded(Seq::<(Seq<char>, Seq<char>)>::empty()) == Seq::<char>::empty());
        assert(encoded(es.push(e)) =~= record(e.0, e.1));
    } else {
        assert(es.push(e).drop_first() =~= es.drop_first().push(e));
        lemma_encoded_push(es.drop_first(), e);
        assert(encoded(es.push(e)) =~= encoded(es) + record(e.0, e.1));
    }
}

/// Decoding the encoding of entries that can be stored gives those entries back.
pub proof fn lemma_decode_encode(es: Seq<(Seq<char>, Seq<char>)>)
    requires
        valid_entries(es),
    ensures
        decoded(encoded(es)) == Some(es),
    decreases es.len(),
{
    if es.len() == 0 {
        assert(decoded(encoded(es)) == Some(es.take(0)));
        assert(es =~= es.take(0));
    } else {
        let (name, secret) = es[0];
        let rest_es = es.drop_first();
        assert(valid_entries(rest_es)) by {
            assert forall|i: int| 0 <= i < rest_es.len() implies valid_name(#[trigger] rest_es[i].0)
                && valid_secret(rest_es[i].1) by {
                assert(rest_es[i] == es[i + 1]);
            }
        }
        lemma_decode_encode(rest_es);
        let s = encoded(es);
        let end: int = name.len() as int + 1 + secret.len() as int;
        let line = name + seq![':'] + secret;
        assert(valid_name(name) && valid_secret(secret)) by {
            assert(es[0].0 == name);
        }
        assert(s =~= line + seq!['\n'] + encoded(rest_es));
        assert forall|i: int| 0 <= i < end implies s[i] != '\n' by {
            if i < name.len() {
                assert(s[i] == name[i]);
            } else if i > name.len() {
                assert(s[i] == secret[i - name.len() - 1]);
            }
        }
        assert(s[end] == '\n');
        lemma_first_index(s, '\n', end);
        assert(s.take(end) =~= line);
        assert forall|i: int| 0 <= i < name.len() implies line[i] != ':' by {
            assert(line[i] == name[i]);
        }
        lemma_first_index(line, ':', name.len() as int);
        assert(line.take(name.len() as int) =~= name);
        assert(line.skip(name.len() as int + 1) =~= secret);
        assert(s.skip(end + 1) =~= encoded(rest_es));
        assert(es =~= seq![(name, secret)] + rest_es);
    }
}

/// Writes the records of the entries, one after another, in list order.
pub fn encode(entries: &Vec<TotpEntry>) -> (r: String)
    ensures
        r@ == encoded(entries_view(entries@)),
{
    let mut out = String::new();
    let mut i: usize = 0;
    while i < entries.len()
        invariant
            i <= entries.len(),
            out@ == encoded(entries_view(entries@).take(i as int)),
        decreases entries.len() - i,
    {
        let e = &entries[i];
        out.append(e.name.as_str());
        out.append(":");
        out.append(e.secret.as_str());
        out.append("\n");
        proof {
            reveal_strlit(":");
            reveal_strlit("\n");
            let ev = entries_view(entries@);
            assert(ev.take(i + 1) =~= ev.take(i as int).push(ev[i as int]));
            lemma_encoded_push(ev.take(i as int), ev[i as int]);
            assert(out@ =~= encoded(ev.take(i + 1)));
        }
        i = i + 1;
    }
    proof {
        assert(entries_view(entries@).take(i as int) =~= entries_view(entries@));
    }
    out
}

/// Reads entries back from their records; fails where a line has no `:`.
pub fn decode(text: &str) -> (r: Result<Vec<TotpEntry>, VaultError>)
    ensures
        match decoded(text@) {
            Some(es) => r is Ok && entries_view(r->Ok_0@) == es,
            None => r == Err::<Vec<TotpEntry>, VaultError>(VaultError::MalformedRecord),
        },
{
    let n = text.unicode_len();
    let mut out: Vec<TotpEntry> = Vec::new();
    let mut pos: usize = 0;
    proof {
        assert(text@.skip(0) =~= text@);
        assert(entries_view(out@) =~= Seq::empty());
        assert(decoded(text@) == prepend(entries_view(out@), decoded(text@.skip(0)))) by {
            match decoded(text@) {
                Some(t) => { assert(entries_view(out@) + t =~= t); },
                None => {},
            }
        }
    }
    while pos < n
        invariant
            pos <= n,
            n == text@.len(),
            decoded(text@) == prepend(entries_view(out@), decoded(text@.skip(pos as int))),
        decreases n - pos,
    {
        let mut end: usize = pos;
        let mut colon: usize = n;
        loop
            invariant
                pos <= end <= n,
                colon <= n,
                n == text@.len(),
                forall|k: int| pos <= k < end ==> text@[k] != '\n',
                colon == n ==> forall|k: int| pos <= k < end ==> text@[k] != ':',
                colon < n ==> pos <= colon < end && text@[colon as int] == ':' && forall|k: int|
                    pos <= k < colon ==> text@[k] != ':',
            ensures
                pos <= end <= n,
                colon <= n,
                end == n || text@[end as int] == '\n',
                forall|k: int| pos <= k < end ==> text@[k] != '\n',
                colon == n ==> forall|k: int| pos <= k < end ==> text@[k] != ':',
                colon < n ==> pos <= colon < end && text@[colon as int] == ':' && forall|k: int|
                    pos <= k < colon ==> text@[k] != ':',
            decreases n - end,
        {
            if end == n {
                break;
            }
            let c = text.get_char(end);
            if c == '\n' {
                break;
            }
            if c == ':' && colon == n {
                colon = end;
            }
            end = end + 1;
        }
        let ghost s = text@.skip(pos as int);
        let ghost line = s.take(end - pos);
        proof {
            assert forall|i: int| 0 <= i < end - pos implies s[i] != '\n' by {
                assert(s[i] == text@[pos + i]);
            }
            if end < n {
                assert(s[end - pos] == text@[end as int]);
            }
            lemma_first_index(s, '\n', end - pos);
            if colon < n {
                assert forall|i: int| 0 <= i < colon - pos implies line[i] != ':' by {
                    assert(line[i] == text@[pos + i]);
                }
                assert(line[colon - pos] == text@[colon as int]);
                lemma_first_index(line, ':', colon - pos);
            } else {
                assert forall|i: int| 0 <= i < end - pos implies line[i] != ':' by {
                    assert(line[i] == text@[pos + i]);
                }
                lemma_first_index(line, ':', end - pos);
            }
        }
        if colon == n {
            return Err(VaultError::MalformedRecord);
        }
        let name = text.substring_char(pos, colon).to_owned();
        let secret = text.substring_char(colon + 1, end).to_owned();
        let ghost before = entries_view(out@);
        out.push(TotpEntry { name, secret });
        let next = if end < n { end + 1 } else { end };
        proof {
            assert(line.take(colon - pos) =~= name@);
            assert(line.skip(colon - pos + 1) =~= secret@);
            assert(entries_view(out@) =~= before.push((name@, secret@)));
            if end < n {
                assert(s.skip(end - pos + 1) =~= text@.skip(next as int));
            } else {
                assert(text@.skip(next as int) =~= Seq::<char>::empty());
            }
            match decoded(text@.skip(next as int)) {
                Some(t) => {
                    assert(before + (seq![(name@, secret@)] + t) =~= entries_view(out@) + t);
                },
                None => {},
            }
        }
        pos = next;
    }
    proof {
        assert(text@.skip(pos as int) =~= Seq::<char>::empty());
        assert(entries_view(out@) + Seq::empty() =~= entries_view(out@));
    }
    Ok(out)
}

} // verus!
