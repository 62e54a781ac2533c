//! Settings of the Qt event loop and the preparation of the command line it is given.
use vstd::prelude::*;

verus! {

/// Searches `haystack` for `needle` with `memchr::memchr`, which returns the index of the
/// first byte equal to `needle`, or `None` when no byte is equal to it.
#[verifier::external_body]
fn memchr(needle: u8, haystack: &[u8]) -> (r: Option<usize>)
    ensures
        match r {
            Some(i) => i < haystack@.len() && haystack@[i as int] == needle && forall|j: int|
                0 <= j < i ==> haystack@[j] != needle,
            None => forall|j: int| 0 <= j < haystack@.len() ==> haystack@[j] != needle,
        },
{
    memchr::memchr(needle, haystack)
}

/// True when `bytes` holds a NUL byte.
pub open spec fn has_nul(bytes: Seq<u8>) -> bool {
    exists|j: int| 0 <= j < bytes.len() && bytes[j] == 0
}

/// Whether `bytes` holds a NUL byte.
pub fn contains_nul(bytes: &[u8]) -> (r: bool)
    ensures
        r == has_nul(bytes@),
{
    match memchr(0, bytes) {
        Some(i) => {
            assert(bytes@[i as int] == 0);
            true
        },
        None => false,
    }
}


/// Checks the argument at `index` of the command line: it fails with
/// [RuntimeError::ArgContainsNul] carrying `index` exactly when `arg` holds a NUL byte.
pub fn check_arg(index: usize, arg: &[u8]) -> (r: Result<(), RuntimeError>)
    ensures
        r is Ok <==> !has_nul(arg@),
        r matches Err(e) ==> e@ == RuntimeErrorView::ArgContainsNul(index as nat),
{
    if contains_nul(arg) {
        Err(RuntimeError::ArgContainsNul(index))
    } else {
        Ok(())
    }
}

/// Reason why the event loop cannot be started.
#[derive(Debug)]
pub enum RuntimeError {
    /// Some command line arguments contains NUL character.
    ArgContainsNul(usize),
    /// At least one command line argument is required.
    ZeroArg,
    /// An unknown style was passed to [Runtime::set_style()].
    UnknownStyle(String),
}

/// What a [RuntimeError] says, as plain values.
pub enum RuntimeErrorView {
    ArgContainsNul(nat),
    ZeroArg,
    UnknownStyle(Seq<char>),
}

impl View for RuntimeError {
    type V = RuntimeErrorView;

    open spec fn view(&self) -> RuntimeErrorView {
        match self {
            RuntimeError::ArgContainsNul(i) => RuntimeErrorView::ArgContainsNul(*i as nat),
            RuntimeError::ZeroArg => RuntimeErrorView::ZeroArg,
            RuntimeError::UnknownStyle(s) => RuntimeErrorView::UnknownStyle(s@),
        }
    }
}

/// The settings a [Runtime] hands to Qt, as plain values.
pub struct RuntimeSettings {
    pub organization_name: Option<Seq<char>>,
    pub application_name: Option<Seq<char>>,
    pub style: Option<Seq<char>>,
}

/// The view of an optional string.
pub open spec fn opt_view(s: Option<String>) -> Option<Seq<char>> {
    match s {
        Some(v) => Some(v@),
        None => None,
    }
}

/// Encapsulates Qt's event loop to run the application.
pub struct Runtime {
    organization_name: Option<String>,
    application_name: Option<String>,
    style: Option<String>,
}

impl View for Runtime {
    type V = RuntimeSettings;

    closed spec fn view(&self) -> RuntimeSettings {
        RuntimeSettings {
            organization_name: opt_view(self.organization_name),
            application_name: opt_view(self.application_name),
            style: opt_view(self.style),
        }
    }
}

/// What the event loop is started with: the command line as NUL-terminated strings, its
/// count, and the settings to hand to Qt first.
pub struct Launch {
    pub argv: Vec<Vec<u8>>,
    pub argc: i32,
    pub organization_name: Option<String>,
    pub application_name: Option<String>,
    pub style: Option<String>,
}

/// The index of the first argument that holds a NUL byte, if one does.
pub open spec fn first_nul_arg(args: Seq<Vec<u8>>) -> Option<nat> {
    if exists|i: int| 0 <= i < args.len() && has_nul(args[i]@) {
        let i = choose|i: int|
            0 <= i < args.len() && has_nul(args[i]@) && forall|j: int|
                0 <= j < i ==> !has_nul(#[trigger] args[j]@);
        Some(i as nat)
    } else {
        None
    }
}

/// The outcome of preparing the command line `args`: the index of the first argument with
/// a NUL byte, else `ZeroArg` when there is no argument, else the arguments each with a
/// NUL byte appended.
pub open spec fn launch_outcome(args: Seq<Vec<u8>>) -> Result<Seq<Seq<u8>>, RuntimeErrorView> {
    match first_nul_arg(args) {
        Some(i) => Err(RuntimeErrorView::ArgContainsNul(i)),
        None => if args.len() == 0 {
            Err(RuntimeErrorView::ZeroArg)
        } else {
            Ok(Seq::new(args.len(), |i: int| args[i]@.push(0u8)))
        },
    }
}

/// The least index of an argument holding a NUL byte exists whenever one does.
proof fn lemma_first_nul_arg(args: Seq<Vec<u8>>, i: int)
    requires
        0 <= i < args.len(),
        has_nul(args[i]@),
        forall|j: int| 0 <= j < i ==> !has_nul(#[trigger] args[j]@),
    ensures
        first_nul_arg(args) == Some(i as nat),
{
    let k = choose|k: int|
        0 <= k < args.len() && has_nul(args[k]@) && forall|j: int|
            0 <= j < k ==> !has_nul(#[trigger] args[j]@);
    assert(0 <= k < args.len() && has_nul(args[k]@) && forall|j: int|
        0 <= j < k ==> !has_nul(#[trigger] args[j]@));
    if k < i {
        assert(!has_nul(args[k]@));
    }
    if i < k {
        assert(!has_nul(args[i]@));
    }
}

/// A command line is refused for a NUL byte exactly when some argument holds one, and then
/// with the index of the first such argument (not a position inside it); an empty command
/// line without NUL bytes is refused as such; every other one is accepted with each argument
/// NUL-terminated.
pub proof fn lemma_launch_outcome(args: Seq<Vec<u8>>)
    ensures
        launch_outcome(args) matches Err(RuntimeErrorView::ArgContainsNul(i)) ==> i < args.len()
            && has_nul(args[i as int]@) && forall|j: int| 0 <= j < i ==> !has_nul(#[trigger] args[j]@),
        (exists|i: int| 0 <= i < args.len() && has_nul(#[trigger] args[i]@)) ==> launch_outcome(
            args,
        ) is Err && launch_outcome(args)->Err_0 is ArgContainsNul,
        launch_outcome(args) matches Err(RuntimeErrorView::ZeroArg) ==> args.len() == 0,
        launch_outcome(args) matches Ok(argv) ==> args.len() > 0 && argv.len() == args.len()
            && forall|i: int|
            0 <= i < args.len() ==> !has_nul(#[trigger] args[i]@) && argv[i] == args[i]@.push(0u8),
{
    if exists|i: int| 0 <= i < args.len() && has_nul(args[i]@) {
        let k = choose|k: int|
            0 <= k < args.len() && has_nul(args[k]@) && forall|j: int|
                0 <= j < k ==> !has_nul(#[trigger] args[j]@);
        lemma_least_nul_arg_exists(args);
        assert(0 <= k < args.len() && has_nul(args[k]@) && forall|j: int|
            0 <= j < k ==> !has_nul(#[trigger] args[j]@));
    }
}

/// When some argument holds a NUL byte, a first one does.
proof fn lemma_least_nul_arg_exists(args: Seq<Vec<u8>>)
    requires
        exists|i: int| 0 <= i < args.len() && has_nul(args[i]@),
    ensures
        exists|k: int|
            0 <= k < args.len() && has_nul(args[k]@) && forall|j: int|
                0 <= j < k ==> !has_nul(#[trigger] args[j]@),
    decreases args.len(),
{
    let i = choose|i: int| 0 <= i < args.len() && has_nul(args[i]@);
    if has_nul(args[0]@) {
        assert(forall|j: int| 0 <= j < 0 ==> !has_nul(#[trigger] args[j]@));
    } else {
        let rest = args.drop_first();
        assert(rest[i - 1] == args[i]);
        lemma_least_nul_arg_exists(rest);
        let k = choose|k: int|
            0 <= k < rest.len() && has_nul(rest[k]@) && forall|j: int|
                0 <= j < k ==> !has_nul(#[trigger] rest[j]@);
        assert(args[k + 1] == rest[k]);
        assert forall|j: int| 0 <= j < k + 1 implies !has_nul(#[trigger] args[j]@) by {
            if j > 0 {
                assert(args[j] == rest[j - 1]);
            }
        }
    }
}

impl Runtime {
    /// Create a new instance of [Runtime] with no organization name, application name or
    /// style.
    pub fn new() -> (r: Runtime)
        ensures
            r@.organization_name is None,
            r@.application_name is None,
            r@.style is None,
    {
        Runtime { organization_name: None, application_name: None, style: None }
    }

    /// Set organization's name to be used with `QCoreApplication::setOrganizationName`.
    pub fn set_organization_name(&mut self, v: String)
        ensures
            final(self)@.organization_name == Some(v@),
            final(self)@.application_name == old(self)@.application_name,
            final(self)@.style == old(self)@.style,
    {
        self.organization_name = Some(v);
    }

    /// Set application's name to be used with `QCoreApplication::setApplicationName`.
    pub fn set_application_name(&mut self, v: String)
        ensures
            final(self)@.application_name == Some(v@),
            final(self)@.organization_name == old(self)@.organization_name,
            final(self)@.style == old(self)@.style,
    {
        self.application_name = Some(v);
    }

    /// Set style name to be used with `QApplication::setStyle`.
    pub fn set_style(&mut self, v: String)
        ensures
            final(self)@.style == Some(v@),
            final(self)@.organization_name == old(self)@.organization_name,
            final(self)@.application_name == old(self)@.application_name,
    {
        self.style = Some(v);
    }

    /// Prepares the command line `args` for Qt: each argument is copied with a NUL byte
    /// appended. Fails with the index of the first argument that holds a NUL byte, or, when
    /// there is no argument, with [RuntimeError::ZeroArg].
    pub fn launch(self, args: &Vec<Vec<u8>>) -> (r: Result<Launch, RuntimeError>)
        requires
            args.len() <= i32::MAX,
        ensures
            match (r, launch_outcome(args@)) {
                (Ok(l), Ok(argv)) => {
                    &&& l.argv@.len() == argv.len()
                    &&& forall|i: int| 0 <= i < argv.len() ==> #[trigger] l.argv@[i]@ == argv[i]
                    &&& l.argc == args.len()
                    &&& opt_view(l.organization_name) == self@.organization_name
                    &&& opt_view(l.application_name) == self@.application_name
                    &&& opt_view(l.style) == self@.style
                },
                (Err(e), Err(ev)) => e@ == ev,
                _ => false,
            },
            r matches Err(RuntimeError::ArgContainsNul(i)) ==> i < args.len() && has_nul(
                args@[i as int]@,
            ) && forall|j: int| 0 <= j < i ==> !has_nul(#[trigger] args@[j]@),
            (exists|i: int| 0 <= i < args.len() && has_nul(#[trigger] args@[i]@))
                ==> r matches Err(RuntimeError::ArgContainsNul(_)),
            r matches Err(RuntimeError::ZeroArg) ==> args.len() == 0,
            r is Ok ==> args.len() > 0 && forall|i: int| 0 <= i < args.len() ==> !has_nul(#[trigger] args@[i]@),
    {
        proof {
            lemma_launch_outcome(args@);
        }
        let mut argv: Vec<Vec<u8>> = Vec::new();
        let n = args.len();
        for i in 0..n
            invariant
                n == args.len(),
                argv.len() == i,
                forall|j: int| 0 <= j < i ==> !has_nul(#[trigger] args@[j]@),
                forall|j: int| 0 <= j < i ==> #[trigger] argv@[j]@ == args@[j]@.push(0u8),
        {
            let arg = &args[i];
            if contains_nul(arg.as_slice()) {
                proof {
                    lemma_first_nul_arg(args@, i as int);
                }
                return Err(RuntimeError::ArgContainsNul(i));
            }
            let mut buf: Vec<u8> = Vec::new();
            let len = arg.len();
            for k in 0..len
                invariant
                    len == arg.len(),
                    buf@ == arg@.subrange(0, k as int),
            {
                buf.push(arg[k]);
                assert(buf@ =~= arg@.subrange(0, k + 1));
            }
            buf.push(0u8);
            assert(buf@ =~= arg@.push(0u8));
            argv.push(buf);
        }
        assert(first_nul_arg(args@) is None);
        if n == 0 {
            return Err(RuntimeError::ZeroArg);
        }
        let ghost expected = Seq::new(args@.len(), |i: int| args@[i]@.push(0u8));
        assert(launch_outcome(args@) == Ok::<Seq<Seq<u8>>, RuntimeErrorView>(expected));
        Ok(Launch {
            argv,
            argc: n as i32,
            organization_name: self.organization_name,
            application_name: self.application_name,
            style: self.style,
        })
    }

    /// What the answer of Qt to the style that was asked for means: the event loop goes on
    /// when the style was accepted, and fails with [RuntimeError::UnknownStyle] otherwise.
    pub fn style_outcome(style: String, accepted: bool) -> (r: Result<(), RuntimeError>)
        ensures
            accepted <==> r is Ok,
            !accepted ==> (r matches Err(e) && e@ == RuntimeErrorView::UnknownStyle(style@)),
    {
        if accepted {
            Ok(())
        } else {
            Err(RuntimeError::UnknownStyle(style))
        }
    }
}

} // verus!
