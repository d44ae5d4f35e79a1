//! Method binding: one entry point `(context, method, params) -> result`
//! over a table of declared methods, with the parameters decoded by name (or
//! by position) into typed arguments before the handler runs.

use vstd::prelude::*;

use crate::errors::{Error, ErrorKind};
use crate::json::{distinct_names, member, take_members, Json};
use crate::codec::Type;
use crate::message::{Id, Request};
use crate::server::{ids_of, is_batch_text, replies, reply_batch, reply_single, response_for, Context};
use crate::wire::is_response_text;

verus! {

/// The type a declared parameter is decoded to.
#[derive(Clone, Copy, Debug, PartialEq, Eq, Structural)]
pub enum ParamType {
    Bool,
    I32,
    U32,
    I64,
    U64,
    Str,
    /// Any JSON value, taken as it is.
    Any,
}

/// A decoded argument.
#[derive(Debug, PartialEq)]
pub enum Arg {
    Bool(bool),
    I32(i32),
    U32(u32),
    I64(i64),
    U64(u64),
    Str(String),
    Any(Json),
}

/// A named, typed parameter.
#[derive(Debug)]
pub struct ParamDecl {
    pub name: String,
    pub ty: ParamType,
}

/// A method of the service: its name and its parameters in order.
#[derive(Debug)]
pub struct MethodDecl {
    pub name: String,
    pub params: Vec<ParamDecl>,
}

/// Why parameters could not be decoded.
#[derive(Clone, Copy, Debug, PartialEq, Eq, Structural)]
pub enum ParamsError {
    /// Neither an object nor an array.
    NotStructured,
    /// An array whose length is not the number of parameters.
    WrongCount,
    /// The parameter at this index is absent.
    Missing(usize),
    /// The parameter at this index has a value of another type.
    WrongType(usize),
}

/// The argument that `j` decodes to as a parameter of type `ty`.
pub open spec fn spec_arg(ty: ParamType, j: Json) -> Option<Arg> {
    match (ty, j) {
        (ParamType::Bool, Json::Bool(b)) => Some(Arg::Bool(b)),
        (ParamType::I32, Json::Int(i)) => if i32::MIN <= i <= i32::MAX { Some(Arg::I32(i as i32)) } else { None },
        (ParamType::I32, Json::UInt(u)) => if u <= i32::MAX { Some(Arg::I32(u as i32)) } else { None },
        (ParamType::U32, Json::UInt(u)) => if u <= u32::MAX { Some(Arg::U32(u as u32)) } else { None },
        (ParamType::I64, Json::Int(i)) => Some(Arg::I64(i)),
        (ParamType::I64, Json::UInt(u)) => if u <= i64::MAX { Some(Arg::I64(u as i64)) } else { None },
        (ParamType::U64, Json::UInt(u)) => Some(Arg::U64(u)),
        (ParamType::Str, Json::Str(s)) => Some(Arg::Str(s)),
        (ParamType::Any, j) => Some(Arg::Any(j)),
        _ => None,
    }
}

/// The arguments from index `k` on, given the value found for each parameter;
/// the first parameter in order that is absent or mistyped is the error.
pub open spec fn convert_from(tys: Seq<ParamType>, vals: Seq<Option<Json>>, k: int) -> Result<Seq<Arg>, ParamsError>
    decreases tys.len() - k,
{
    if k < 0 || k >= tys.len() || k >= vals.len() {
        Ok(Seq::empty())
    } else {
        match vals[k] {
            None => Err(ParamsError::Missing(k as usize)),
            Some(v) => match spec_arg(tys[k], v) {
                None => Err(ParamsError::WrongType(k as usize)),
                Some(a) => match convert_from(tys, vals, k + 1) {
                    Ok(rest) => Ok(seq![a] + rest),
                    Err(e) => Err(e),
                },
            },
        }
    }
}

pub open spec fn param_types(ps: Seq<ParamDecl>) -> Seq<ParamType> {
    Seq::new(ps.len(), |i: int| ps[i].ty)
}

/// The arguments that `params` decodes to for the parameters `ps`: an object
/// is read by name (other members are ignored), an array by position. A
/// method without parameters takes whatever `params` holds.
pub open spec fn spec_decode_params(ps: Seq<ParamDecl>, params: Json) -> Result<Seq<Arg>, ParamsError> {
    if ps.len() == 0 {
        Ok(Seq::empty())
    } else {
        match params {
        Json::Object(fs) => convert_from(
            param_types(ps),
            Seq::new(ps.len(), |i: int| member(fs@, ps[i].name@)),
            0,
        ),
        Json::Array(items) => if items@.len() != ps.len() {
            Err(ParamsError::WrongCount)
        } else {
            convert_from(param_types(ps), Seq::new(ps.len(), |i: int| Some(items@[i])), 0)
        },
        _ => Err(ParamsError::NotStructured),
        }
    }
}

impl MethodDecl {
    /// Parameter names are distinct.
    pub open spec fn wf(&self) -> bool {
        distinct_names(Seq::new(self.params@.len(), |i: int| self.params@[i].name))
    }

    /// Whether the parameter names are distinct.
    pub fn names_distinct(&self) -> (r: bool)
        ensures
            r == self.wf(),
    {
        let ghost names = Seq::new(self.params@.len(), |i: int| self.params@[i].name);
        let n = self.params.len();
        let mut i: usize = 0;
        while i < n
            invariant
                n == self.params@.len(),
                names == Seq::new(self.params@.len(), |i: int| self.params@[i].name),
                i <= n,
                forall|a: int, b: int| 0 <= a < i && 0 <= b < n && a != b ==> names[a]@ != names[b]@,
            decreases n - i,
        {
            let mut j: usize = 0;
            while j < n
                invariant
                    n == self.params@.len(),
                    names == Seq::new(self.params@.len(), |i: int| self.params@[i].name),
                    i < n,
                    j <= n,
                    forall|a: int, b: int| 0 <= a < i && 0 <= b < n && a != b ==> names[a]@ != names[b]@,
                    forall|b: int| 0 <= b < j && b != i ==> names[i as int]@ != names[b]@,
                decreases n - j,
            {
                if j != i && self.params[i].name.eq(&self.params[j].name) {
                    assert(!distinct_names(names)) by {
                        assert(names[i as int]@ == names[j as int]@);
                    }
                    return false;
                }
                j = j + 1;
            }
            i = i + 1;
        }
        true
    }
}

fn arg_of(ty: ParamType, j: Json) -> (r: Option<Arg>)
    ensures
        r == spec_arg(ty, j),
{
    match (ty, j) {
        (ParamType::Bool, Json::Bool(b)) => Some(Arg::Bool(b)),
        (ParamType::I32, Json::Int(i)) => {
            if -0x8000_0000 <= i && i <= 0x7fff_ffff {
                Some(Arg::I32(i as i32))
            } else {
                None
            }
        },
        (ParamType::I32, Json::UInt(u)) => {
            if u <= 0x7fff_ffff {
                Some(Arg::I32(u as i32))
            } else {
                None
            }
        },
        (ParamType::U32, Json::UInt(u)) => {
            if u <= 0xffff_ffff {
                Some(Arg::U32(u as u32))
            } else {
                None
            }
        },
        (ParamType::I64, Json::Int(i)) => Some(Arg::I64(i)),
        (ParamType::I64, Json::UInt(u)) => {
            if u <= 0x7fff_ffff_ffff_ffff {
                Some(Arg::I64(u as i64))
            } else {
                None
            }
        },
        (ParamType::U64, Json::UInt(u)) => Some(Arg::U64(u)),
        (ParamType::Str, Json::Str(s)) => Some(Arg::Str(s)),
        (ParamType::Any, j) => Some(Arg::Any(j)),
        _ => None,
    }
}

/// Converts the values found for the parameters, in order.
fn convert_all(ps: &Vec<ParamDecl>, found: Vec<Option<Json>>) -> (r: Result<Vec<Arg>, ParamsError>)
    requires
        found@.len() == ps@.len(),
    ensures
        match r {
            Ok(v) => convert_from(param_types(ps@), found@, 0) == Ok::<Seq<Arg>, ParamsError>(v@),
            Err(e) => convert_from(param_types(ps@), found@, 0) == Err::<Seq<Arg>, ParamsError>(e),
        },
{
    let ghost tys = param_types(ps@);
    let ghost vals0 = found@;
    let mut vals = found;
    let mut out: Vec<Arg> = Vec::new();
    let mut k: usize = 0;
    while k < ps.len()
        invariant
            k <= ps@.len(),
            vals0.len() == ps@.len(),
            vals0 == found@,
            tys == param_types(ps@),
            out@.len() == k,
            vals@ == vals0.skip(k as int),
            convert_from(tys, vals0, 0) == match convert_from(tys, vals0, k as int) {
                Ok(rest) => Ok(out@ + rest),
                Err(e) => Err::<Seq<Arg>, ParamsError>(e),
            },
        decreases ps@.len() - k,
    {
        let ghost before = vals@;
        let v = vals.remove(0);
        assert(before.drop_first() =~= vals@);
        assert(vals@ =~= vals0.skip(k + 1));
        assert(v == vals0[k as int]);
        match v {
            None => {
                assert(convert_from(tys, vals0, k as int) == Err::<Seq<Arg>, ParamsError>(ParamsError::Missing(k)));
                return Err(ParamsError::Missing(k));
            },
            Some(j) => match arg_of(ps[k].ty, j) {
                None => {
                    assert(convert_from(tys, vals0, k as int) == Err::<Seq<Arg>, ParamsError>(ParamsError::WrongType(k)));
                    return Err(ParamsError::WrongType(k));
                },
                Some(a) => {
                    let ghost old_out = out@;
                    out.push(a);
                    proof {
                        match convert_from(tys, vals0, k + 1) {
                            Ok(rest) => {
                                assert(old_out + (seq![a] + rest) =~= out@ + rest);
                            },
                            Err(_) => {},
                        }
                    }
                    k = k + 1;
                },
            },
        }
    }
    assert(out@ + Seq::<Arg>::empty() =~= out@);
    Ok(out)
}

/// Decodes the parameters of a call.
pub fn decode_params(ps: &Vec<ParamDecl>, params: Json) -> (r: Result<Vec<Arg>, ParamsError>)
    requires
        distinct_names(Seq::new(ps@.len(), |i: int| ps@[i].name)),
    ensures
        match r {
            Ok(v) => spec_decode_params(ps@, params) == Ok::<Seq<Arg>, ParamsError>(v@),
            Err(e) => spec_decode_params(ps@, params) == Err::<Seq<Arg>, ParamsError>(e),
        },
{
    if ps.len() == 0 {
        return Ok(Vec::new());
    }
    match params {
        Json::Object(fields) => {
            let ghost fs = fields@;
            let mut names: Vec<String> = Vec::new();
            let mut i: usize = 0;
            while i < ps.len()
                invariant
                    i <= ps@.len(),
                    names@.len() == i,
                    forall|j: int| 0 <= j < i ==> names@[j] == ps@[j].name,
                decreases ps@.len() - i,
            {
                names.push(ps[i].name.clone());
                i = i + 1;
            }
            assert(names@ =~= Seq::new(ps@.len(), |i: int| ps@[i].name));
            let (vals, _) = take_members(fields, &names);
            assert forall|i: int| 0 <= i < ps@.len() implies vals@[i] == member(fs, ps@[i].name@) by {
                assert(vals@[i] == member(fs, names@[i]@));
            }
            assert(vals@ =~= Seq::new(ps@.len(), |i: int| member(fs, ps@[i].name@)));
            convert_all(ps, vals)
        },
        Json::Array(items) => {
            if items.len() != ps.len() {
                return Err(ParamsError::WrongCount);
            }
            let ghost s = items@;
            let mut items = items;
            let mut vals: Vec<Option<Json>> = Vec::new();
            while items.len() > 0
                invariant
                    s.len() == vals@.len() + items@.len(),
                    items@ == s.skip(vals@.len() as int),
                    forall|j: int| 0 <= j < vals@.len() ==> vals@[j] == Some(#[trigger] s[j]),
                decreases items.len(),
            {
                let ghost before = items@;
                let item = items.remove(0);
                assert(before.drop_first() =~= items@);
                vals.push(Some(item));
                assert(items@ =~= s.skip(vals@.len() as int));
            }
            assert(vals@ =~= Seq::new(ps@.len(), |i: int| Some(s[i])));
            convert_all(ps, vals)
        },
        _ => Err(ParamsError::NotStructured),
    }
}

} // verus!

verus! {

/// The message carried as the data of an invalid-params error.
pub open spec fn params_message(ps: Seq<ParamDecl>, e: ParamsError) -> Seq<char> {
    match e {
        ParamsError::NotStructured => "parameters must be an object or an array"@,
        ParamsError::WrongCount => "wrong number of parameters"@,
        ParamsError::Missing(i) => if i < ps.len() {
            "missing parameter `"@ + ps[i as int].name@ + "`"@
        } else {
            "missing parameter"@
        },
        ParamsError::WrongType(i) => if i < ps.len() {
            "invalid type for parameter `"@ + ps[i as int].name@ + "`"@
        } else {
            "invalid type for parameter"@
        },
    }
}

fn quoted(prefix: &str, name: &String) -> (r: String)
    ensures
        r@ == prefix@ + name@ + "`"@,
{
    let mut s = String::from_str(prefix);
    s.append(name.as_str());
    s.append("`");
    s
}

/// Says why parameters could not be decoded.
pub fn describe(ps: &Vec<ParamDecl>, e: ParamsError) -> (r: String)
    ensures
        r@ == params_message(ps@, e),
{
    match e {
        ParamsError::NotStructured => String::from_str("parameters must be an object or an array"),
        ParamsError::WrongCount => String::from_str("wrong number of parameters"),
        ParamsError::Missing(i) => {
            if i < ps.len() {
                quoted("missing parameter `", &ps[i].name)
            } else {
                String::from_str("missing parameter")
            }
        },
        ParamsError::WrongType(i) => {
            if i < ps.len() {
                quoted("invalid type for parameter `", &ps[i].name)
            } else {
                String::from_str("invalid type for parameter")
            }
        },
    }
}

/// The index of the first method named `name`, searching from `k`.
pub open spec fn find_from(ms: Seq<MethodDecl>, name: Seq<char>, k: int) -> Option<int>
    decreases ms.len() - k,
{
    if k < 0 || k >= ms.len() {
        None
    } else if ms[k].name@ == name {
        Some(k)
    } else {
        find_from(ms, name, k + 1)
    }
}

/// The result of a call from what its handler returned: no value (a method
/// returning nothing) is `null`.
pub open spec fn finished(out: Result<Option<Json>, Error>) -> Result<Json, Error> {
    match out {
        Ok(Some(v)) => Ok(v),
        Ok(None) => Ok(Json::Null),
        Err(e) => Err(e),
    }
}

/// A service: its declared methods and one handler, which receives the index
/// of the method called, the connection's context and the decoded arguments.
pub struct Service<F> {
    pub methods: Vec<MethodDecl>,
    pub handler: F,
}

impl<F: Fn(usize, Context, Vec<Arg>) -> Result<Option<Json>, Error>> Service<F> {
    /// Every method's parameter names are distinct.
    pub open spec fn wf(&self) -> bool {
        forall|i: int| 0 <= i < self.methods@.len() ==> (#[trigger] self.methods@[i]).wf()
    }

    /// Whether every method's parameter names are distinct, as `call`
    /// requires.
    pub fn is_wf(&self) -> (r: bool)
        ensures
            r == self.wf(),
    {
        let mut k: usize = 0;
        while k < self.methods.len()
            invariant
                k <= self.methods@.len(),
                forall|i: int| 0 <= i < k ==> (#[trigger] self.methods@[i]).wf(),
            decreases self.methods@.len() - k,
        {
            if !self.methods[k].names_distinct() {
                return false;
            }
            k = k + 1;
        }
        true
    }

    pub fn new(methods: Vec<MethodDecl>, handler: F) -> (r: Self)
        ensures
            r.methods == methods,
            r.handler == handler,
    {
        Service { methods, handler }
    }

    /// `r` is an answer of this service to a call of `method` with `params`:
    /// an unknown method is `MethodNotFound`; parameters that do not decode
    /// are `InvalidParams`, with the reason as data; otherwise it is what the
    /// handler returned for the decoded arguments, with no value read as
    /// `null`.
    pub open spec fn answers(&self, ctx: Context, method: Seq<char>, params: Json, r: Result<Json, Error>) -> bool {
        match find_from(self.methods@, method, 0) {
            None => r matches Err(e) && e.code == ErrorKind::MethodNotFound.spec_code()
                && e.message@ == ErrorKind::MethodNotFound.spec_message() && e.data is None,
            Some(i) => match spec_decode_params(self.methods@[i].params@, params) {
                Err(pe) => r matches Err(e) && e.code == ErrorKind::InvalidParams.spec_code()
                    && e.message@ == ErrorKind::InvalidParams.spec_message()
                    && (e.data matches Some(Json::Str(m)) && m@ == params_message(self.methods@[i].params@, pe)),
                Ok(args) => exists|v: Vec<Arg>, out: Result<Option<Json>, Error>|
                    v@ == args && self.handler.ensures((i as usize, ctx, v), out) && r == finished(out),
            },
        }
    }

    /// The index of the method named `name`, if one is declared.
    pub fn find(&self, name: &String) -> (r: Option<usize>)
        ensures
            match r {
                Some(i) => find_from(self.methods@, name@, 0) == Some(i as int) && i < self.methods@.len(),
                None => find_from(self.methods@, name@, 0) is None,
            },
    {
        let mut k: usize = 0;
        while k < self.methods.len()
            invariant
                k <= self.methods@.len(),
                find_from(self.methods@, name@, 0) == find_from(self.methods@, name@, k as int),
            decreases self.methods@.len() - k,
        {
            if self.methods[k].name.eq(name) {
                return Some(k);
            }
            k = k + 1;
        }
        None
    }

    /// Runs a call; see `answers`.
    pub fn call(&self, ctx: Context, method: &String, params: Json) -> (r: Result<Json, Error>)
        requires
            self.wf(),
            forall|i: usize, c: Context, a: Vec<Arg>| self.handler.requires((i, c, a)),
        ensures
            self.answers(ctx, method@, params, r),
    {
        match self.find(method) {
            None => Err(Error::new(ErrorKind::MethodNotFound, None)),
            Some(i) => {
                let decl = &self.methods[i];
                assert(decl.wf());
                match decode_params(&decl.params, params) {
                    Err(pe) => Err(Error::new(ErrorKind::InvalidParams, Some(Json::Str(describe(&decl.params, pe))))),
                    Ok(args) => {
                        let ghost a = args;
                        let out = (self.handler)(i, ctx, args);
                        let ghost out0 = out;
                        let r = match out {
                            Ok(Some(v)) => Ok(v),
                            Ok(None) => Ok(Json::Null),
                            Err(e) => Err(e),
                        };
                        assert(self.handler.ensures((i, ctx, a), out0) && r == finished(out0));
                        r
                    },
                }
            },
        }
    }

    /// Answers a message: a call gets the text of its response, a
    /// notification is run and gets nothing, and a batch gets the array of
    /// the responses to its calls, in order, with every request in it run.
    pub fn handle(&self, ctx: Context, message: Type<Request>) -> (r: Option<Vec<u8>>)
        requires
            self.wf(),
            forall|i: usize, c: Context, a: Vec<Arg>| self.handler.requires((i, c, a)),
        ensures
            match message {
                Type::Single(req) => match req.id {
                    None => r is None,
                    Some(x) => r matches Some(b) && exists|out: Result<Json, Error>|
                        self.answers(ctx, req.method@, req.params, out) && is_response_text(b@, response_for(x, out)),
                },
                Type::Batched(reqs) => r matches Some(b) && exists|outs: Seq<Result<Json, Error>>|
                    outs.len() == reqs@.len()
                    && (forall|i: int| 0 <= i < reqs@.len() ==> self.answers(ctx, reqs@[i].method@, reqs@[i].params, #[trigger] outs[i]))
                    && is_batch_text(b@, replies(ids_of(reqs@), outs)),
            },
    {
        match message {
            Type::Single(req) => {
                let Request { jsonrpc: _, method, params, id } = req;
                let outcome = self.call(ctx, &method, params);
                reply_single(id, outcome)
            },
            Type::Batched(reqs) => {
                let ghost s = reqs@;
                let mut reqs = reqs;
                let mut ids: Vec<Option<Id>> = Vec::new();
                let mut outs: Vec<Result<Json, Error>> = Vec::new();
                while reqs.len() > 0
                    invariant
                        self.wf(),
                        forall|i: usize, c: Context, a: Vec<Arg>| self.handler.requires((i, c, a)),
                        s.len() == outs@.len() + reqs@.len(),
                        ids@.len() == outs@.len(),
                        reqs@ == s.skip(outs@.len() as int),
                        forall|i: int| 0 <= i < outs@.len() ==> ids@[i] == (#[trigger] s[i]).id,
                        forall|i: int| 0 <= i < outs@.len() ==> self.answers(ctx, s[i].method@, s[i].params, #[trigger] outs@[i]),
                    decreases reqs.len(),
                {
                    let ghost before = reqs@;
                    let req = reqs.remove(0);
                    assert(before.drop_first() =~= reqs@);
                    let Request { jsonrpc: _, method, params, id } = req;
                    let outcome = self.call(ctx, &method, params);
                    ids.push(id);
                    outs.push(outcome);
                    assert(reqs@ =~= s.skip(outs@.len() as int));
                }
                assert(ids@ =~= ids_of(s));
                let ghost outs0 = outs@;
                let b = reply_batch(ids, outs);
                assert(outs0.len() == s.len() && (forall|i: int| 0 <= i < s.len() ==> self.answers(ctx, s[i].method@, s[i].params, #[trigger] outs0[i])) && is_batch_text(b@, replies(ids_of(s), outs0)));
                Some(b)
            },
        }
    }
}

} // verus!
