//! Decisions of the standalone server program: its command line and the
//! check of its smoke test's answer.
use vstd::prelude::*;

use crate::text::{chars_of, contains_chars, has_infix, has_prefix, starts_with_chars, string_from_str};

verus! {

/// The command line of the standalone server, parsed. The socket address
/// is kept as written; that it parses was checked while parsing.
#[derive(Debug, Clone, PartialEq, Eq)]
pub struct Args {
    pub addr: String,
    pub smoke_test: bool,
    pub fs_root: Option<String>,
}

pub struct ArgsView {
    pub addr: Seq<char>,
    pub smoke_test: bool,
    pub fs_root: Option<Seq<char>>,
}

impl View for Args {
    type V = ArgsView;

    open spec fn view(&self) -> ArgsView {
        ArgsView {
            addr: self.addr@,
            smoke_test: self.smoke_test,
            fs_root: match self.fs_root {
                Some(r) => Some(r@),
                None => None,
            },
        }
    }
}

/// Why a command line was refused.
#[derive(Debug, Clone, PartialEq, Eq)]
pub enum ArgsError {
    /// `--addr` came last.
    MissingAddress,
    /// The value after `--addr` is not a socket address.
    InvalidAddress,
    /// `--fs-root` came last.
    MissingFsRoot,
    /// An argument that is none of the options.
    UnknownArgument { argument: String },
}

pub enum ArgsErrorView {
    MissingAddress,
    InvalidAddress,
    MissingFsRoot,
    UnknownArgument { argument: Seq<char> },
}

impl View for ArgsError {
    type V = ArgsErrorView;

    open spec fn view(&self) -> ArgsErrorView {
        match self {
            ArgsError::MissingAddress => ArgsErrorView::MissingAddress,
            ArgsError::InvalidAddress => ArgsErrorView::InvalidAddress,
            ArgsError::MissingFsRoot => ArgsErrorView::MissingFsRoot,
            ArgsError::UnknownArgument { argument } => ArgsErrorView::UnknownArgument {
                argument: argument@,
            },
        }
    }
}

/// The address served when none is given.
pub open spec fn default_addr() -> Seq<char> {
    "127.0.0.1:8080"@
}

/// Argument `i` parses as a socket address.
pub open spec fn addr_parses(address_ok: Seq<bool>, i: int) -> bool {
    0 <= i < address_ok.len() && address_ok[i]
}

/// The result of parsing `args` from position `i` on, with `acc` parsed so
/// far: options are read left to right, a later `--addr` or `--fs-root`
/// overriding an earlier one, and the first bad argument ends the parse.
pub open spec fn parse_from(
    args: Seq<Seq<char>>,
    address_ok: Seq<bool>,
    i: int,
    acc: ArgsView,
) -> std::result::Result<ArgsView, ArgsErrorView>
    decreases args.len() - i,
{
    if i < 0 || i >= args.len() {
        Ok(acc)
    } else if args[i] == "--smoke-test"@ {
        parse_from(args, address_ok, i + 1, ArgsView { smoke_test: true, ..acc })
    } else if args[i] == "--addr"@ {
        if i + 1 >= args.len() {
            Err(ArgsErrorView::MissingAddress)
        } else if !addr_parses(address_ok, i + 1) {
            Err(ArgsErrorView::InvalidAddress)
        } else {
            parse_from(args, address_ok, i + 2, ArgsView { addr: args[i + 1], ..acc })
        }
    } else if args[i] == "--fs-root"@ {
        if i + 1 >= args.len() {
            Err(ArgsErrorView::MissingFsRoot)
        } else {
            parse_from(args, address_ok, i + 2, ArgsView { fs_root: Some(args[i + 1]), ..acc })
        }
    } else {
        Err(ArgsErrorView::UnknownArgument { argument: args[i] })
    }
}

/// The views of the arguments.
pub open spec fn arg_views(args: Seq<String>) -> Seq<Seq<char>> {
    args.map_values(|a: String| a@)
}

/// What `parse_args` gives for `args`.
pub open spec fn parse_view(args: Seq<String>, address_ok: Seq<bool>) -> std::result::Result<
    ArgsView,
    ArgsErrorView,
> {
    parse_from(
        arg_views(args),
        address_ok,
        0,
        ArgsView { addr: default_addr(), smoke_test: false, fs_root: None },
    )
}

fn same_chars(a: &Vec<char>, b: &Vec<char>) -> (r: bool)
    ensures
        r == (a@ == b@),
{
    if a.len() != b.len() {
        return false;
    }
    let mut i: usize = 0;
    while i < a.len()
        invariant
            a.len() == b.len(),
            i <= a.len(),
            forall|k: int| 0 <= k < i ==> a@[k] == b@[k],
        decreases a.len() - i,
    {
        if a[i] != b[i] {
            return false;
        }
        i = i + 1;
    }
    assert(a@ =~= b@);
    true
}

fn is_word(arg: &String, word: &str) -> (r: bool)
    ensures
        r == (arg@ == word@),
{
    same_chars(&chars_of(arg.as_str()), &chars_of(word))
}

/// Parses the server's arguments (the program name left out).
/// `address_ok[i]` says whether `args[i]` parses as a socket address.
pub fn parse_args(args: &Vec<String>, address_ok: &Vec<bool>) -> (r: std::result::Result<
    Args,
    ArgsError,
>)
    ensures
        match r {
            Ok(a) => parse_view(args@, address_ok@) == Ok::<ArgsView, ArgsErrorView>(a@),
            Err(e) => parse_view(args@, address_ok@) == Err::<ArgsView, ArgsErrorView>(e@),
        },
{
    let mut parsed = Args { addr: string_from_str("127.0.0.1:8080"), smoke_test: false, fs_root: None };
    let ghost views = arg_views(args@);
    let mut i: usize = 0;
    while i < args.len()
        invariant
            i <= args.len(),
            views == arg_views(args@),
            views.len() == args.len(),
            forall|k: int| 0 <= k < args.len() ==> #[trigger] views[k] == args@[k]@,
            parse_view(args@, address_ok@) == parse_from(views, address_ok@, i as int, parsed@),
        decreases args.len() - i,
    {
        let arg = &args[i];
        if is_word(arg, "--smoke-test") {
            parsed.smoke_test = true;
            i = i + 1;
        } else if is_word(arg, "--addr") {
            if i + 1 >= args.len() {
                return Err(ArgsError::MissingAddress);
            }
            let ok = i + 1 < address_ok.len() && address_ok[i + 1];
            if !ok {
                return Err(ArgsError::InvalidAddress);
            }
            parsed.addr = args[i + 1].clone();
            i = i + 2;
        } else if is_word(arg, "--fs-root") {
            if i + 1 >= args.len() {
                return Err(ArgsError::MissingFsRoot);
            }
            parsed.fs_root = Some(args[i + 1].clone());
            i = i + 2;
        } else {
            return Err(ArgsError::UnknownArgument { argument: arg.clone() });
        }
    }
    Ok(parsed)
}

/// Arguments are read left to right: where `args` parse from position `i`
/// with `acc`, the arguments after them carry on from that result.
pub proof fn law_parse_left_to_right(
    args: Seq<Seq<char>>,
    tail: Seq<Seq<char>>,
    address_ok: Seq<bool>,
    i: int,
    acc: ArgsView,
)
    requires
        0 <= i <= args.len(),
        (parse_from(args, address_ok, i, acc) is Ok),
    ensures
        parse_from(args + tail, address_ok, i, acc) == parse_from(
            args + tail,
            address_ok,
            args.len() as int,
            parse_from(args, address_ok, i, acc)->Ok_0,
        ),
    decreases args.len() - i,
{
    if i < args.len() {
        let all = args + tail;
        assert(all[i] == args[i]);
        if args[i] == "--smoke-test"@ {
            law_parse_left_to_right(
                args,
                tail,
                address_ok,
                i + 1,
                ArgsView { smoke_test: true, ..acc },
            );
        } else if args[i] == "--addr"@ {
            assert(all[i + 1] == args[i + 1]);
            law_parse_left_to_right(
                args,
                tail,
                address_ok,
                i + 2,
                ArgsView { addr: args[i + 1], ..acc },
            );
        } else if args[i] == "--fs-root"@ {
            assert(all[i + 1] == args[i + 1]);
            law_parse_left_to_right(
                args,
                tail,
                address_ok,
                i + 2,
                ArgsView { fs_root: Some(args[i + 1]), ..acc },
            );
        }
    }
}

/// What each option does to the arguments parsed before it: `--smoke-test`
/// turns the smoke test on; `--addr` sets the address where the value after
/// it parses as one, and is refused where that value is missing or does not
/// parse; `--fs-root` sets the root, and is refused where its value is
/// missing; any other argument is refused as unknown. Nothing else changes.
pub proof fn law_parse_option(
    args: Seq<Seq<char>>,
    value: Seq<char>,
    other: Seq<char>,
    address_ok: Seq<bool>,
    r: ArgsView,
)
    ensures
        parse_from(args.push("--smoke-test"@), address_ok, args.len() as int, r) == Ok::<
            ArgsView,
            ArgsErrorView,
        >(ArgsView { smoke_test: true, ..r }),
        addr_parses(address_ok, args.len() + 1int) ==> parse_from(
            args.push("--addr"@).push(value),
            address_ok,
            args.len() as int,
            r,
        ) == Ok::<ArgsView, ArgsErrorView>(ArgsView { addr: value, ..r }),
        !addr_parses(address_ok, args.len() + 1int) ==> parse_from(
            args.push("--addr"@).push(value),
            address_ok,
            args.len() as int,
            r,
        ) == Err::<ArgsView, ArgsErrorView>(ArgsErrorView::InvalidAddress),
        parse_from(args.push("--addr"@), address_ok, args.len() as int, r) == Err::<
            ArgsView,
            ArgsErrorView,
        >(ArgsErrorView::MissingAddress),
        parse_from(args.push("--fs-root"@).push(value), address_ok, args.len() as int, r) == Ok::<
            ArgsView,
            ArgsErrorView,
        >(ArgsView { fs_root: Some(value), ..r }),
        parse_from(args.push("--fs-root"@), address_ok, args.len() as int, r) == Err::<
            ArgsView,
            ArgsErrorView,
        >(ArgsErrorView::MissingFsRoot),
        (other != "--smoke-test"@ && other != "--addr"@ && other != "--fs-root"@) ==> parse_from(
            args.push(other),
            address_ok,
            args.len() as int,
            r,
        ) == Err::<ArgsView, ArgsErrorView>(ArgsErrorView::UnknownArgument { argument: other }),
{
    reveal_strlit("--smoke-test");
    reveal_strlit("--addr");
    reveal_strlit("--fs-root");
    assert("--addr"@.len() != "--smoke-test"@.len());
    assert("--fs-root"@.len() != "--smoke-test"@.len());
    assert("--fs-root"@.len() != "--addr"@.len());
    let n = args.len() as int;
    let a = args.push("--smoke-test"@);
    assert(a[n] == "--smoke-test"@);
    assert(parse_from(a, address_ok, n + 1, ArgsView { smoke_test: true, ..r }) == Ok::<
        ArgsView,
        ArgsErrorView,
    >(ArgsView { smoke_test: true, ..r }));
    let b = args.push("--addr"@).push(value);
    assert(b[n] == "--addr"@);
    assert(b[n + 1] == value);
    assert(parse_from(b, address_ok, n + 2, ArgsView { addr: value, ..r }) == Ok::<
        ArgsView,
        ArgsErrorView,
    >(ArgsView { addr: value, ..r }));
    let c = args.push("--addr"@);
    assert(c[n] == "--addr"@);
    let d = args.push("--fs-root"@).push(value);
    assert(d[n] == "--fs-root"@);
    assert(d[n + 1] == value);
    assert(parse_from(d, address_ok, n + 2, ArgsView { fs_root: Some(value), ..r }) == Ok::<
        ArgsView,
        ArgsErrorView,
    >(ArgsView { fs_root: Some(value), ..r }));
    let e = args.push("--fs-root"@);
    assert(e[n] == "--fs-root"@);
    let g = args.push(other);
    assert(g[n] == other);
}

/// Why the smoke test's answer was refused.
#[derive(Debug, Clone, Copy, PartialEq, Eq)]
pub enum SmokeFailure {
    /// The answer does not begin with `HTTP/1.1 200`.
    UnexpectedStatus,
    /// The answer does not contain the fixture's text.
    UnexpectedBody,
}

/// The status line that the smoke test expects.
pub open spec fn smoke_status() -> Seq<char> {
    "HTTP/1.1 200"@
}

/// The text of the smoke test's fixture file.
pub open spec fn smoke_body() -> Seq<char> {
    "hello from webdav-wasi"@
}

/// Checks the answer to the smoke test's `GET /hello.txt`.
pub fn check_smoke_response(response: &str) -> (r: std::result::Result<(), SmokeFailure>)
    ensures
        r == if !has_prefix(response@, smoke_status()) {
            Err::<(), SmokeFailure>(SmokeFailure::UnexpectedStatus)
        } else if !has_infix(response@, smoke_body()) {
            Err(SmokeFailure::UnexpectedBody)
        } else {
            Ok(())
        },
{
    let chars = chars_of(response);
    if !starts_with_chars(&chars, &chars_of("HTTP/1.1 200")) {
        return Err(SmokeFailure::UnexpectedStatus);
    }
    if !contains_chars(&chars, &chars_of("hello from webdav-wasi")) {
        return Err(SmokeFailure::UnexpectedBody);
    }
    Ok(())
}

} // verus!
