//! Named boolean flags that gate backup and restore operations.
//!
//! The handler keeps an ordered list of `(name, enabled)` pairs and can be
//! read from and written to a line-oriented `name=bool` text form.

use vstd::prelude::*;

use crate::error::{Error, ErrorSpec};
use crate::strutil::{find_char, find_from, lemma_find_char, lemma_find_char_at, trim, trim_spec};

verus! {

/// Var type, first arg is var name and second arg is var's state (enabled
/// or disabled).
pub type Var = (String, bool);

/// Handle all vars.
pub struct VarsHandler {
    vars: Vec<Var>,
}

impl View for VarsHandler {
    type V = Seq<(Seq<char>, bool)>;

    closed spec fn view(&self) -> Seq<(Seq<char>, bool)> {
        self.vars.deep_view()
    }
}

/// Value of the first var named `name`, if any.
pub open spec fn var_value(vars: Seq<(Seq<char>, bool)>, name: Seq<char>) -> Option<bool>
    decreases vars.len(),
{
    if vars.len() == 0 {
        None
    } else if vars[0].0 == name {
        Some(vars[0].1)
    } else {
        var_value(vars.drop_first(), name)
    }
}

/// `vars` with the first var named `name`, if any, set to `value`.
pub open spec fn set_var_spec(
    vars: Seq<(Seq<char>, bool)>,
    name: Seq<char>,
    value: bool,
) -> Seq<(Seq<char>, bool)>
    decreases vars.len(),
{
    if vars.len() == 0 {
        vars
    } else if vars[0].0 == name {
        vars.update(0, (vars[0].0, value))
    } else {
        seq![vars[0]] + set_var_spec(vars.drop_first(), name, value)
    }
}

/// `vars` without the first var named `name`, if any.
pub open spec fn remove_var_spec(
    vars: Seq<(Seq<char>, bool)>,
    name: Seq<char>,
) -> Seq<(Seq<char>, bool)>
    decreases vars.len(),
{
    if vars.len() == 0 {
        vars
    } else if vars[0].0 == name {
        vars.drop_first()
    } else {
        seq![vars[0]] + remove_var_spec(vars.drop_first(), name)
    }
}

/// The first name in `req` that is absent from `vars` or present with value
/// `false`, if any.
pub open spec fn first_unmet(
    vars: Seq<(Seq<char>, bool)>,
    req: Seq<Seq<char>>,
) -> Option<Seq<char>>
    decreases req.len(),
{
    if req.len() == 0 {
        None
    } else if var_value(vars, req[0]) != Some(true) {
        Some(req[0])
    } else {
        first_unmet(vars, req.drop_first())
    }
}

/// All required names are present and enabled exactly when no name is
/// unmet; an empty requirement is always met.
pub proof fn lemma_first_unmet(vars: Seq<(Seq<char>, bool)>, req: Seq<Seq<char>>)
    ensures
        first_unmet(vars, req) is None <==> (forall|i: int|
            0 <= i < req.len() ==> var_value(vars, req[i]) == Some(true)),
        req.len() == 0 ==> first_unmet(vars, req) is None,
        first_unmet(vars, req) matches Some(n) ==> req.contains(n) && var_value(vars, n)
            != Some(true),
    decreases req.len(),
{
    if req.len() > 0 {
        lemma_first_unmet(vars, req.drop_first());
        assert forall|k: int| 1 <= k < req.len() implies req.drop_first()[k - 1] == req[k] by {}
        if first_unmet(vars, req) is Some {
            let n = first_unmet(vars, req)->Some_0;
            if var_value(vars, req[0]) == Some(true) {
                assert(req.drop_first().contains(n));
                let j = choose|j: int|
                    0 <= j < req.drop_first().len() && req.drop_first()[j] == n;
                assert(req[j + 1] == n);
            }
        }
    }
}

/// Text form of a boolean value.
pub open spec fn bool_text(b: bool) -> Seq<char> {
    if b {
        seq!['t', 'r', 'u', 'e']
    } else {
        seq!['f', 'a', 'l', 's', 'e']
    }
}

/// One line of the persisted form: `name=value` and a newline.
pub open spec fn var_line(v: (Seq<char>, bool)) -> Seq<char> {
    v.0 + seq!['='] + bool_text(v.1) + seq!['\n']
}

/// The whole persisted form: one line per var.
pub open spec fn vars_text(vars: Seq<(Seq<char>, bool)>) -> Seq<char>
    decreases vars.len(),
{
    if vars.len() == 0 {
        Seq::empty()
    } else {
        var_line(vars[0]) + vars_text(vars.drop_first())
    }
}

proof fn lemma_vars_text_snoc(vars: Seq<(Seq<char>, bool)>, v: (Seq<char>, bool))
    ensures
        vars_text(vars.push(v)) == vars_text(vars) + var_line(v),
    decreases vars.len(),
{
    if vars.len() == 0 {
        assert(vars.push(v)[0] == v);
        assert(vars.push(v).drop_first() =~= Seq::<(Seq<char>, bool)>::empty());
        assert(vars_text(vars.push(v)) == var_line(v) + vars_text(Seq::empty()));
        assert(var_line(v) + Seq::<char>::empty() =~= var_line(v));
        assert(Seq::<char>::empty() + var_line(v) =~= var_line(v));
    } else {
        lemma_vars_text_snoc(vars.drop_first(), v);
        assert(vars.push(v)[0] == vars[0]);
        assert(vars.push(v).drop_first() =~= vars.drop_first().push(v));
        assert(vars_text(vars.push(v)) == var_line(vars[0]) + (vars_text(vars.drop_first())
            + var_line(v)));
        assert(var_line(vars[0]) + (vars_text(vars.drop_first()) + var_line(v)) =~= (var_line(
            vars[0],
        ) + vars_text(vars.drop_first())) + var_line(v));
    }
}

/// A name that the persisted form carries faithfully: no line break, no
/// `=`, and no leading whitespace.
pub open spec fn writable_name(n: Seq<char>) -> bool {
    &&& !n.contains('\n')
    &&& !n.contains('=')
    &&& (n.len() > 0 ==> !crate::strutil::is_space(n[0]))
}

/// Reading the text written for vars yields the same vars, for names the
/// persisted form can carry.
pub proof fn lemma_vars_round_trip(vars: Seq<(Seq<char>, bool)>)
    requires
        forall|i: int| 0 <= i < vars.len() ==> writable_name(#[trigger] vars[i].0),
    ensures
        parse_vars(vars_text(vars)) == Ok::<Seq<(Seq<char>, bool)>, ErrorSpec>(vars),
    decreases vars.len(),
{
    if vars.len() == 0 {
        assert(vars =~= Seq::<(Seq<char>, bool)>::empty());
    } else {
        let n = vars[0].0;
        let b = vars[0].1;
        let bt = bool_text(b);
        let rest = vars_text(vars.drop_first());
        let text = vars_text(vars);
        let pos = n.len() + 1 + bt.len();
        assert(text == var_line(vars[0]) + rest);
        assert(var_line(vars[0]).len() == pos + 1);
        assert forall|k: int| 0 <= k < pos implies text[k] != '\n' by {
            if k < n.len() {
                assert(text[k] == n[k]);
                if n[k] == '\n' {
                    assert(n.contains('\n'));
                }
            } else if k == n.len() {
                assert(text[k] == '=');
            } else {
                assert(text[k] == bt[k - n.len() - 1]);
            }
        }
        assert(text[pos as int] == '\n');
        lemma_find_char_at(text, '\n', pos as int);
        let body = n + seq!['='] + bt;
        assert(text.take(pos as int) =~= body);
        assert(text.skip(pos as int + 1) =~= rest);
        assert(body[n.len() as int] == '=');
        if n.len() > 0 {
            assert(body[0] == n[0]);
        }
        assert(!crate::strutil::is_space(body[0]));
        assert(crate::strutil::trim_start_idx(body) == 0);
        assert(body.last() == 'e');
        assert(crate::strutil::trim_end_idx(body) == body.len());
        assert(trim_spec(body) =~= body);
        assert forall|k: int| 0 <= k < n.len() implies body[k] != '=' by {
            assert(body[k] == n[k]);
            if n[k] == '=' {
                assert(n.contains('='));
            }
        }
        lemma_find_char_at(body, '=', n.len() as int);
        assert(body.take(n.len() as int) =~= n);
        assert(body.skip(n.len() as int + 1) =~= bt);
        lemma_find_char(bt, '=');
        assert(find_char(bt, '=') == -1) by {
            if find_char(bt, '=') != -1 {
                assert(bt[find_char(bt, '=')] == '=');
            }
        }
        if b {
            assert(is_true_lit(bt));
        } else {
            assert(is_false_lit(bt));
            assert(!is_true_lit(bt));
        }
        assert(parse_line(text.take(pos as int)) == LineParse::Pair(n, b));
        assert forall|i: int|
            0 <= i < vars.drop_first().len() implies writable_name(
            #[trigger] vars.drop_first()[i].0,
        ) by {
            assert(vars.drop_first()[i] == vars[i + 1]);
        }
        lemma_vars_round_trip(vars.drop_first());
        assert(seq![(n, b)] + vars.drop_first() =~= vars);
    }
}

/// The text reads as the boolean literal `true`, in any letter case.
pub open spec fn is_true_lit(s: Seq<char>) -> bool {
    &&& s.len() == 4
    &&& (s[0] == 't' || s[0] == 'T')
    &&& (s[1] == 'r' || s[1] == 'R')
    &&& (s[2] == 'u' || s[2] == 'U')
    &&& (s[3] == 'e' || s[3] == 'E')
}

/// The text reads as the boolean literal `false`, in any letter case.
pub open spec fn is_false_lit(s: Seq<char>) -> bool {
    &&& s.len() == 5
    &&& (s[0] == 'f' || s[0] == 'F')
    &&& (s[1] == 'a' || s[1] == 'A')
    &&& (s[2] == 'l' || s[2] == 'L')
    &&& (s[3] == 's' || s[3] == 'S')
    &&& (s[4] == 'e' || s[4] == 'E')
}

/// Outcome of reading one line of the persisted form.
pub enum LineParse {
    /// The line is blank.
    Empty,
    /// The line holds a var.
    Pair(Seq<char>, bool),
    /// The line is malformed.
    Fail(ErrorSpec),
}

/// Reads one line of the persisted form: the name stands before the first
/// `=`, the value between the first and the second `=` or the line end.
pub open spec fn parse_line(line: Seq<char>) -> LineParse {
    let t = trim_spec(line);
    if t.len() == 0 {
        LineParse::Empty
    } else {
        let e = find_char(t, '=');
        if e < 0 {
            LineParse::Fail(ErrorSpec::MissingValue(t))
        } else {
            let name = t.take(e);
            let rest = t.skip(e + 1);
            let e2 = find_char(rest, '=');
            let val = if e2 < 0 {
                rest
            } else {
                rest.take(e2)
            };
            if is_true_lit(val) {
                LineParse::Pair(name, true)
            } else if is_false_lit(val) {
                LineParse::Pair(name, false)
            } else {
                LineParse::Fail(ErrorSpec::InvalidValue(val))
            }
        }
    }
}

/// Reads the whole persisted form, line by line; the first malformed line
/// decides the error.
pub open spec fn parse_vars(s: Seq<char>) -> Result<Seq<(Seq<char>, bool)>, ErrorSpec>
    decreases s.len(),
    via parse_vars_decreases
{
    if s.len() == 0 {
        Ok(Seq::empty())
    } else {
        let nl = find_char(s, '\n');
        let line = if nl < 0 {
            s
        } else {
            s.take(nl)
        };
        let rest = if nl < 0 {
            Seq::<char>::empty()
        } else {
            s.skip(nl + 1)
        };
        match parse_line(line) {
            LineParse::Empty => parse_vars(rest),
            LineParse::Pair(n, v) => match parse_vars(rest) {
                Ok(tail) => Ok(seq![(n, v)] + tail),
                Err(e) => Err(e),
            },
            LineParse::Fail(e) => Err(e),
        }
    }
}

#[via_fn]
proof fn parse_vars_decreases(s: Seq<char>) {
    lemma_find_char(s, '\n');
}

/// Exec mirror of [`is_true_lit`].
fn is_true_exec(s: &str) -> (r: bool)
    ensures
        r == is_true_lit(s@),
{
    s.unicode_len() == 4 && (s.get_char(0) == 't' || s.get_char(0) == 'T') && (s.get_char(1) == 'r'
        || s.get_char(1) == 'R') && (s.get_char(2) == 'u' || s.get_char(2) == 'U') && (s.get_char(3)
        == 'e' || s.get_char(3) == 'E')
}

/// Exec mirror of [`is_false_lit`].
fn is_false_exec(s: &str) -> (r: bool)
    ensures
        r == is_false_lit(s@),
{
    s.unicode_len() == 5 && (s.get_char(0) == 'f' || s.get_char(0) == 'F') && (s.get_char(1) == 'a'
        || s.get_char(1) == 'A') && (s.get_char(2) == 'l' || s.get_char(2) == 'L') && (s.get_char(3)
        == 's' || s.get_char(3) == 'S') && (s.get_char(4) == 'e' || s.get_char(4) == 'E')
}

impl VarsHandler {
    /// Default constructor.
    pub fn new(vars: Vec<Var>) -> (r: VarsHandler)
        ensures
            r@ == vars.deep_view(),
    {
        VarsHandler { vars }
    }

    /// Get vars file's path: the per-user configuration directory and the
    /// name `vars`.
    pub fn get_default_path() -> (r: Result<String, Error>)
        ensures
            r matches Ok(p) ==> p@.len() >= 5 && p@.skip(p@.len() - 5) == "/vars"@,
            r matches Err(e) ==> e@ is Io,
    {
        let root = match crate::appdir::user_config_root() {
            Ok(p) => p,
            Err(m) => {
                return Err(Error::Io(m));
            },
        };
        let mut p = root;
        p.append("/vars");
        proof {
            reveal_strlit("/vars");
            assert(p@.skip(p@.len() - 5) =~= "/vars"@);
        }
        Ok(p)
    }

    /// Get numbers of var.
    pub fn len(&self) -> (r: usize)
        ensures
            r == self@.len(),
    {
        self.vars.len()
    }

    /// The var at `index`, for display.
    pub fn get(&self, index: usize) -> (r: &Var)
        requires
            index < self@.len(),
        ensures
            r.deep_view() == self@[index as int],
    {
        &self.vars[index]
    }

    /// Add var.
    pub fn add_var(&mut self, var: Var)
        ensures
            final(self)@ == old(self)@.push((var.0@, var.1)),
    {
        self.vars.push(var);
        proof {
            assert(self@ =~= old(self)@.push((var.0@, var.1)));
        }
    }

    /// Get var value: the value of the first var with this name.
    pub fn get_var(&self, name: &str) -> (r: Option<bool>)
        ensures
            r == var_value(self@, name@),
    {
        let n = self.vars.len();
        let mut i: usize = 0;
        proof {
            assert(self@.skip(0) =~= self@);
        }
        while i < n
            invariant
                i <= n,
                n == self@.len(),
                n == self.vars.len(),
                var_value(self@, name@) == var_value(self@.skip(i as int), name@),
            decreases n - i,
        {
            proof {
                assert(self@.skip(i as int)[0] == self@[i as int]);
                assert(self@.skip(i as int).drop_first() =~= self@.skip(i + 1));
            }
            if crate::strutil::str_eq(self.vars[i].0.as_str(), name) {
                return Some(self.vars[i].1);
            }
            i = i + 1;
        }
        None
    }

    /// Check if var is present.
    pub fn is_present(&self, name: &str) -> (r: bool)
        ensures
            r == (var_value(self@, name@) is Some),
    {
        self.get_var(name).is_some()
    }

    /// Set var value: the first var with this name takes `value`; without
    /// such a var nothing changes.
    pub fn set_var(&mut self, name: &str, value: bool)
        ensures
            final(self)@ == set_var_spec(old(self)@, name@, value),
    {
        let n = self.vars.len();
        let mut i: usize = 0;
        proof {
            assert(old(self)@.skip(0) =~= old(self)@);
            assert(old(self)@.take(0) =~= Seq::<(Seq<char>, bool)>::empty());
        }
        while i < n
            invariant
                i <= n,
                n == self.vars.len(),
                self@ == old(self)@,
                set_var_spec(old(self)@, name@, value) == old(self)@.take(i as int)
                    + set_var_spec(old(self)@.skip(i as int), name@, value),
            decreases n - i,
        {
            proof {
                assert(old(self)@.skip(i as int)[0] == old(self)@[i as int]);
                assert(old(self)@.skip(i as int).drop_first() =~= old(self)@.skip(i + 1));
                assert(old(self)@.take(i as int).push(old(self)@[i as int]) =~= old(self)@.take(
                    i + 1,
                ));
            }
            if crate::strutil::str_eq(self.vars[i].0.as_str(), name) {
                let nm = self.vars[i].0.clone();
                self.vars[i] = (nm, value);
                proof {
                    let sfx = old(self)@.skip(i as int);
                    assert(sfx.update(0, (sfx[0].0, value)) =~= seq![
                        (old(self)@[i as int].0, value),
                    ] + old(self)@.skip(i + 1));
                    assert(self@ =~= old(self)@.take(i as int) + seq![
                        (old(self)@[i as int].0, value),
                    ] + old(self)@.skip(i + 1));
                }
                return ;
            }
            proof {
                let sfx = old(self)@.skip(i as int);
                assert(seq![sfx[0]] + set_var_spec(sfx.drop_first(), name@, value)
                    =~= seq![old(self)@[i as int]] + set_var_spec(
                    old(self)@.skip(i + 1),
                    name@,
                    value,
                ));
                assert(old(self)@.take(i as int) + (seq![old(self)@[i as int]] + set_var_spec(
                    old(self)@.skip(i + 1),
                    name@,
                    value,
                )) =~= old(self)@.take(i + 1) + set_var_spec(
                    old(self)@.skip(i + 1),
                    name@,
                    value,
                ));
            }
            i = i + 1;
        }
        proof {
            assert(old(self)@.skip(n as int) =~= Seq::<(Seq<char>, bool)>::empty());
            assert(old(self)@.take(n as int) =~= old(self)@);
            assert(self@ =~= set_var_spec(old(self)@, name@, value));
        }
    }

    /// Remove var: the first var with this name leaves the handler and is
    /// returned.
    pub fn remove_var(&mut self, name: &str) -> (r: Option<Var>)
        ensures
            final(self)@ == remove_var_spec(old(self)@, name@),
            match r {
                Some(v) => var_value(old(self)@, name@) == Some(v.1) && v.0@ == name@
                    && old(self)@.contains((v.0@, v.1)),
                None => var_value(old(self)@, name@) is None && final(self)@ == old(self)@,
            },
    {
        let n = self.vars.len();
        let mut i: usize = 0;
        proof {
            assert(old(self)@.skip(0) =~= old(self)@);
            assert(old(self)@.take(0) =~= Seq::<(Seq<char>, bool)>::empty());
        }
        while i < n
            invariant
                i <= n,
                n == self.vars.len(),
                self@ == old(self)@,
                self.vars@ == old(self).vars@,
                forall|k: int| 0 <= k < i ==> old(self)@[k].0 != name@,
                var_value(old(self)@, name@) == var_value(old(self)@.skip(i as int), name@),
                remove_var_spec(old(self)@, name@) == old(self)@.take(i as int)
                    + remove_var_spec(old(self)@.skip(i as int), name@),
            decreases n - i,
        {
            proof {
                assert(old(self)@.skip(i as int)[0] == old(self)@[i as int]);
                assert(old(self)@.skip(i as int).drop_first() =~= old(self)@.skip(i + 1));
            }
            if crate::strutil::str_eq(self.vars[i].0.as_str(), name) {
                let v = self.vars.remove(i);
                proof {
                    assert(self.vars@ =~= old(self).vars@.take(i as int) + old(self).vars@.skip(
                        i + 1,
                    ));
                    assert(self@ =~= old(self)@.take(i as int) + old(self)@.skip(i + 1));
                    assert(old(self)@.contains((v.0@, v.1))) by {
                        assert(old(self)@[i as int] == (v.0@, v.1));
                    }
                }
                return Some(v);
            }
            proof {
                let sfx = old(self)@.skip(i as int);
                assert(old(self)@.take(i as int) + (seq![old(self)@[i as int]] + remove_var_spec(
                    old(self)@.skip(i + 1),
                    name@,
                )) =~= old(self)@.take(i + 1) + remove_var_spec(old(self)@.skip(i + 1), name@));
            }
            i = i + 1;
        }
        proof {
            assert(old(self)@.skip(n as int) =~= Seq::<(Seq<char>, bool)>::empty());
            assert(old(self)@.take(n as int) =~= old(self)@);
            assert(self@ =~= remove_var_spec(old(self)@, name@));
        }
        None
    }

    /// Read from buffer: one var per line, blank lines skipped, the first
    /// malformed line decides the error.
    #[verifier::rlimit(50)]
    pub fn read_from_buf(buf: &str) -> (r: Result<VarsHandler, Error>)
        ensures
            match r {
                Ok(h) => parse_vars(buf@) == Ok::<Seq<(Seq<char>, bool)>, ErrorSpec>(h@),
                Err(e) => parse_vars(buf@) == Err::<Seq<(Seq<char>, bool)>, ErrorSpec>(e@),
            },
    {
        let n = buf.unicode_len();
        let mut vars: Vec<Var> = Vec::new();
        let mut pos: usize = 0;
        proof {
            assert(buf@.skip(0) =~= buf@);
            assert(vars.deep_view() =~= Seq::<(Seq<char>, bool)>::empty());
        }
        while pos < n
            invariant
                pos <= n,
                n == buf@.len(),
                parse_vars(buf@) == (match parse_vars(buf@.skip(pos as int)) {
                    Ok(tail) => Ok::<Seq<(Seq<char>, bool)>, ErrorSpec>(vars.deep_view() + tail),
                    Err(e) => Err::<Seq<(Seq<char>, bool)>, ErrorSpec>(e),
                }),
            decreases n - pos,
        {
            let ghost sfx = buf@.skip(pos as int);
            let ghost prev_vars = vars.deep_view();
            let (line_end, next_pos): (usize, usize) = match find_from(buf, pos, '\n') {
                Some(j) => {
                    proof {
                        assert forall|k: int| 0 <= k < j - pos implies sfx[k] != '\n' by {
                            assert(sfx[k] == buf@[pos + k]);
                        }
                        assert(sfx[j - pos] == buf@[j as int]);
                        lemma_find_char_at(sfx, '\n', j - pos);
                    }
                    (j, j + 1)
                },
                None => {
                    proof {
                        assert forall|k: int| 0 <= k < sfx.len() implies sfx[k] != '\n' by {
                            assert(sfx[k] == buf@[pos + k]);
                        }
                        lemma_find_char(sfx, '\n');
                    }
                    (n, n)
                },
            };
            let ghost nl = find_char(sfx, '\n');
            let ghost spec_line = if nl < 0 {
                sfx
            } else {
                sfx.take(nl)
            };
            let ghost rest = if nl < 0 {
                Seq::<char>::empty()
            } else {
                sfx.skip(nl + 1)
            };
            proof {
                assert(rest =~= buf@.skip(next_pos as int));
            }
            let line = buf.substring_char(pos, line_end);
            proof {
                assert(line@ =~= spec_line);
            }
            let t = trim(line);
            let tlen = t.unicode_len();
            if tlen == 0 {
                proof {
                    assert(parse_line(spec_line) == LineParse::Empty);
                }
            } else {
                match find_from(t, 0, '=') {
                    None => {
                        proof {
                            lemma_find_char(t@, '=');
                            assert(parse_line(spec_line) == LineParse::Fail(
                                ErrorSpec::MissingValue(t@),
                            ));
                        }
                        return Err(Error::MissingValue(t.to_owned()));
                    },
                    Some(e) => {
                        proof {
                            lemma_find_char_at(t@, '=', e as int);
                        }
                        let ghost rest_t = t@.skip(e + 1);
                        let name = t.substring_char(0, e);
                        let vend: usize = match find_from(t, e + 1, '=') {
                            Some(j) => {
                                proof {
                                    assert forall|k: int| 0 <= k < j - (e + 1) implies rest_t[k]
                                        != '=' by {
                                        assert(rest_t[k] == t@[e + 1 + k]);
                                    }
                                    assert(rest_t[j - (e + 1)] == t@[j as int]);
                                    lemma_find_char_at(rest_t, '=', j - (e + 1));
                                }
                                j
                            },
                            None => {
                                proof {
                                    assert forall|k: int| 0 <= k < rest_t.len() implies rest_t[k]
                                        != '=' by {
                                        assert(rest_t[k] == t@[e + 1 + k]);
                                    }
                                    lemma_find_char(rest_t, '=');
                                }
                                tlen
                            },
                        };
                        let ghost e2 = find_char(rest_t, '=');
                        let val = t.substring_char(e + 1, vend);
                        proof {
                            assert(val@ =~= (if e2 < 0 {
                                rest_t
                            } else {
                                rest_t.take(e2)
                            }));
                            assert(name@ =~= t@.take(e as int));
                        }
                        let b: bool;
                        if is_true_exec(val) {
                            b = true;
                        } else if is_false_exec(val) {
                            b = false;
                        } else {
                            proof {
                                assert(parse_line(spec_line) == LineParse::Fail(
                                    ErrorSpec::InvalidValue(val@),
                                ));
                            }
                            return Err(Error::InvalidValue(val.to_owned()));
                        }
                        vars.push((name.to_owned(), b));
                        proof {
                            assert(parse_line(spec_line) == LineParse::Pair(name@, b));
                            assert(vars.deep_view() =~= prev_vars.push((name@, b)));
                            if parse_vars(rest) is Ok {
                                let tail = parse_vars(rest)->Ok_0;
                                assert(parse_vars(sfx) == Ok::<Seq<(Seq<char>, bool)>, ErrorSpec>(
                                    seq![(name@, b)] + tail,
                                ));
                                assert(prev_vars + (seq![(name@, b)] + tail) =~= vars.deep_view()
                                    + tail);
                            }
                        }
                    },
                }
            }
            pos = next_pos;
        }
        proof {
            assert(buf@.skip(n as int) =~= Seq::<char>::empty());
        }
        Ok(VarsHandler::new(vars))
    }

    /// Write to string: appends the persisted form, one `name=value` line
    /// per var.
    pub fn write_to_string(&self, s: &mut String)
        ensures
            final(s)@ == old(s)@ + vars_text(self@),
    {
        let n = self.vars.len();
        let mut i: usize = 0;
        proof {
            assert(self@.take(0) =~= Seq::<(Seq<char>, bool)>::empty());
            assert(old(s)@ + vars_text(self@.take(0)) =~= old(s)@);
        }
        while i < n
            invariant
                i <= n,
                n == self.vars.len(),
                s@ == old(s)@ + vars_text(self@.take(i as int)),
            decreases n - i,
        {
            s.append(self.vars[i].0.as_str());
            s.append("=");
            if self.vars[i].1 {
                s.append("true");
            } else {
                s.append("false");
            }
            s.append("\n");
            proof {
                reveal_strlit("=");
                reveal_strlit("true");
                reveal_strlit("false");
                reveal_strlit("\n");
                assert("="@ =~= seq!['=']);
                assert("true"@ =~= seq!['t', 'r', 'u', 'e']);
                assert("false"@ =~= seq!['f', 'a', 'l', 's', 'e']);
                assert("\n"@ =~= seq!['\n']);
                assert(self@[i as int] == (self.vars@[i as int].0@, self.vars@[i as int].1));
                lemma_vars_text_snoc(self@.take(i as int), self@[i as int]);
                assert(self@.take(i as int).push(self@[i as int]) =~= self@.take(i + 1));
                assert(s@ =~= old(s)@ + vars_text(self@.take(i + 1)));
            }
            i = i + 1;
        }
        proof {
            assert(self@.take(n as int) =~= self@);
        }
    }

    /// Check that every required flag is present and enabled; the first
    /// unmet name decides the error.
    pub fn check(&self, required: &Vec<String>) -> (r: Result<(), Error>)
        ensures
            r matches Ok(_) <==> first_unmet(self@, required.deep_view()) is None,
            r matches Err(e) ==> first_unmet(self@, required.deep_view()) == Some(e@->MissingRequiredFlag_0)
                && e@ matches ErrorSpec::MissingRequiredFlag(_),
    {
        let ghost req = required.deep_view();
        let n = required.len();
        let mut i: usize = 0;
        proof {
            assert(req.skip(0) =~= req);
        }
        while i < n
            invariant
                i <= n,
                n == required.len(),
                req == required.deep_view(),
                first_unmet(self@, req) == first_unmet(self@, req.skip(i as int)),
            decreases n - i,
        {
            proof {
                assert(req.skip(i as int)[0] == req[i as int]);
                assert(req.skip(i as int).drop_first() =~= req.skip(i + 1));
            }
            match self.get_var(required[i].as_str()) {
                Some(true) => {}
                _ => {
                    proof {
                        assert(req[i as int] == required@[i as int]@);
                        assert(first_unmet(self@, req) == Some(req[i as int]));
                    }
                    return Err(Error::MissingRequiredFlag(required[i].clone()));
                }
            }
            i = i + 1;
        }
        proof {
            assert(req.skip(n as int) =~= Seq::<Seq<char>>::empty());
        }
        Ok(())
    }
}

} // verus!
