//! Decisions of the render pipeline: the renderer's argument list, output file
//! names, the browser-sandbox configuration, and the fail-fast failure policy.
//! Running the external renderer itself is process work and stays outside the
//! library; every decision about what to run and what an outcome means is here.

use vstd::prelude::*;
use vstd::string::*;

verus! {

/// Decimal digit character for a value below ten.
pub open spec fn digit_char(d: nat) -> char
    recommends
        d < 10,
{
    ((48 + d) as u8) as char
}

/// The decimal digits of `n`, most significant first, as `n.to_string()` writes them.
pub open spec fn spec_digits(n: nat) -> Seq<char>
    decreases n,
{
    if n < 10 {
        seq![digit_char(n)]
    } else {
        spec_digits(n / 10).push(digit_char(n % 10))
    }
}

fn digit_str(d: usize) -> (r: &'static str)
    requires
        d < 10,
    ensures
        r@ == seq![digit_char(d as nat)],
{
    let r: &'static str = match d {
        0 => "0",
        1 => "1",
        2 => "2",
        3 => "3",
        4 => "4",
        5 => "5",
        6 => "6",
        7 => "7",
        8 => "8",
        _ => "9",
    };
    proof {
        reveal_strlit("0");
        reveal_strlit("1");
        reveal_strlit("2");
        reveal_strlit("3");
        reveal_strlit("4");
        reveal_strlit("5");
        reveal_strlit("6");
        reveal_strlit("7");
        reveal_strlit("8");
        reveal_strlit("9");
        assert(r@ =~= seq![digit_char(d as nat)]);
    }
    r
}

/// The decimal rendering of `n`, e.g. `1` becomes `"1"` and `120` becomes `"120"`.
pub fn usize_to_string(n: usize) -> (r: String)
    ensures
        r@ == spec_digits(n as nat),
    decreases n,
{
    if n < 10 {
        digit_str(n).to_owned()
    } else {
        let mut s = usize_to_string(n / 10);
        s.append(digit_str(n % 10));
        s
    }
}

/// Name of the PNG written for the block with the given 1-based index.
pub open spec fn spec_output_file_name(index: nat) -> Seq<char> {
    "mermaid-"@ + spec_digits(index) + ".png"@
}

/// File name for a rendered block: `mermaid-<index>.png`.
pub fn output_file_name(index: usize) -> (r: String)
    ensures
        r@ == spec_output_file_name(index as nat),
{
    let mut s = "mermaid-".to_owned();
    let digits = usize_to_string(index);
    s.append(digits.as_str());
    s.append(".png");
    s
}

/// Sizing options handed to the rendering engine. A scale is carried as the
/// decimal text the engine receives on its command line.
#[derive(Debug, Clone)]
pub struct RenderOptions {
    pub scale: Option<String>,
    pub width: Option<u32>,
    pub height: Option<u32>,
}

impl Default for RenderOptions {
    fn default() -> (r: Self)
        ensures
            r.scale is None && r.width is None && r.height is None,
    {
        RenderOptions { scale: None, width: None, height: None }
    }
}

/// The renderer's full argument list for one block: input and output files,
/// quiet mode, then the optional sandbox configuration and sizing flags.
pub open spec fn spec_mmdc_args(
    input: Seq<char>,
    output: Seq<char>,
    config: Option<Seq<char>>,
    opts: RenderOptions,
) -> Seq<Seq<char>> {
    seq!["-i"@, input, "-o"@, output, "--quiet"@] + (match config {
        Some(c) => seq!["-p"@, c],
        None => Seq::empty(),
    }) + (match opts.scale {
        Some(s) => seq!["--scale"@, s@],
        None => Seq::empty(),
    }) + (match opts.width {
        Some(w) => seq!["--width"@, spec_digits(w as nat)],
        None => Seq::empty(),
    }) + (match opts.height {
        Some(h) => seq!["--height"@, spec_digits(h as nat)],
        None => Seq::empty(),
    })
}

/// Build the argument list for one rendering-engine invocation.
pub fn mmdc_args(
    input_path: &str,
    output_path: &str,
    config_path: Option<&str>,
    options: &RenderOptions,
) -> (r: Vec<String>)
    ensures
        r.deep_view() == spec_mmdc_args(
            input_path@,
            output_path@,
            config_path.deep_view(),
            *options,
        ),
{
    let mut args: Vec<String> = Vec::new();
    args.push("-i".to_owned());
    args.push(input_path.to_owned());
    args.push("-o".to_owned());
    args.push(output_path.to_owned());
    args.push("--quiet".to_owned());
    match config_path {
        Some(c) => {
            args.push("-p".to_owned());
            args.push(c.to_owned());
        },
        None => {},
    }
    match &options.scale {
        Some(s) => {
            args.push("--scale".to_owned());
            args.push(s.clone());
        },
        None => {},
    }
    match options.width {
        Some(w) => {
            args.push("--width".to_owned());
            args.push(usize_to_string(w as usize));
        },
        None => {},
    }
    match options.height {
        Some(h) => {
            args.push("--height".to_owned());
            args.push(usize_to_string(h as usize));
        },
        None => {},
    }
    proof {
        assert(args.deep_view() =~= spec_mmdc_args(
            input_path@,
            output_path@,
            config_path.deep_view(),
            *options,
        ));
    }
    args
}

/// What `str::trim` leaves of a string: the characters with leading and
/// trailing whitespace removed.
pub uninterp spec fn trim_of(s: Seq<char>) -> Seq<char>;

/// Relies on `str::trim`: it returns the string without leading and trailing
/// whitespace, and its result depends on the characters alone.
#[verifier::external_body]
fn trim<'a>(s: &'a str) -> (r: &'a str)
    ensures
        r@ == trim_of(s@),
{
    s.trim()
}

/// The candidate browser executables probed, in order, when no explicit
/// override names one.
pub fn chrome_candidates() -> (r: Vec<&'static str>)
    ensures
        r.deep_view() == seq![
            "chromium"@,
            "chromium-browser"@,
            "google-chrome"@,
            "google-chrome-stable"@,
        ],
{
    let mut v: Vec<&'static str> = Vec::new();
    v.push("chromium");
    v.push("chromium-browser");
    v.push("google-chrome");
    v.push("google-chrome-stable");
    proof {
        assert(v.deep_view() =~= seq![
            "chromium"@,
            "chromium-browser"@,
            "google-chrome"@,
            "google-chrome-stable"@,
        ]);
    }
    v
}

/// Accept an environment override for the browser executable only when it is
/// set and not blank; a value of nothing but whitespace is ignored.
pub fn chrome_from_env(value: Option<String>) -> (r: Option<String>)
    ensures
        value is None ==> r is None,
        value matches Some(u) ==> (if trim_of(u@).len() == 0 {
            r is None
        } else {
            r == Some(u)
        }),
{
    match value {
        Some(v) => {
            let t = trim(v.as_str());
            if t.is_empty() {
                None
            } else {
                Some(v)
            }
        },
        None => None,
    }
}

/// The browser-sandbox configuration handed to the rendering engine: the
/// executable to launch and the flags that disable OS sandboxing.
pub open spec fn spec_puppeteer_config(chrome_path: Seq<char>) -> Seq<char> {
    "{\n  \"executablePath\": \""@ + chrome_path
        + "\",\n  \"args\": [\"--no-sandbox\", \"--disable-setuid-sandbox\", \"--disable-dev-shm-usage\"]\n}\n"@
}

/// JSON text of the sandbox configuration for the given browser executable.
pub fn puppeteer_config_json(chrome_path: &str) -> (r: String)
    ensures
        r@ == spec_puppeteer_config(chrome_path@),
{
    let mut s = "{\n  \"executablePath\": \"".to_owned();
    s.append(chrome_path);
    s.append(
        "\",\n  \"args\": [\"--no-sandbox\", \"--disable-setuid-sandbox\", \"--disable-dev-shm-usage\"]\n}\n",
    );
    s
}

/// One successfully rendered block: where its PNG was written.
pub struct RenderedDiagram {
    pub output_path: String,
}

/// A failed rendering-engine run: which block failed and the diagnostic line
/// surfaced to the caller.
#[derive(Debug)]
pub struct RenderError {
    pub index: usize,
    pub detail: String,
}

/// The diagnostic for a failed block: the engine's name, the block's 1-based
/// index, and the engine's trimmed standard-error text.
pub open spec fn spec_failure_detail(index: nat, stderr: Seq<char>) -> Seq<char> {
    "mmdc failed for diagram "@ + spec_digits(index) + ": "@ + trim_of(stderr)
}

/// Judge one rendering-engine run. A zero exit yields the rendered diagram at
/// `output_path`; a non-zero exit yields the error that aborts the whole
/// pipeline, naming the failing block's index.
pub fn after_render(index: usize, output_path: String, success: bool, stderr: &str) -> (r: Result<
    RenderedDiagram,
    RenderError,
>)
    ensures
        success ==> (r matches Ok(d) && d.output_path == output_path),
        !success ==> (r matches Err(e) && e.index == index && e.detail@ == spec_failure_detail(
            index as nat,
            stderr@,
        )),
{
    if success {
        Ok(RenderedDiagram { output_path })
    } else {
        let mut detail = "mmdc failed for diagram ".to_owned();
        let digits = usize_to_string(index);
        detail.append(digits.as_str());
        detail.append(": ");
        detail.append(trim(stderr));
        Err(RenderError { index, detail })
    }
}

/// How many blocks a fail-fast run attempts, given each block's would-be
/// outcome: all of them when every render succeeds, otherwise every block up
/// to and including the first failing one.
pub open spec fn spec_attempted(outcomes: Seq<bool>) -> int
    decreases outcomes.len(),
{
    if outcomes.len() == 0 {
        0
    } else if !outcomes[0] {
        1
    } else {
        1 + spec_attempted(outcomes.drop_first())
    }
}

/// Fail-fast law: when block `k` is the first to fail, the run attempts
/// exactly the blocks up to and including `k`, so no output is produced for
/// any block after it.
pub proof fn lemma_fail_fast(outcomes: Seq<bool>, k: int)
    requires
        0 <= k < outcomes.len(),
        !outcomes[k],
        forall|j: int| 0 <= j < k ==> outcomes[j],
    ensures
        spec_attempted(outcomes) == k + 1,
    decreases k,
{
    if k > 0 {
        lemma_fail_fast(outcomes.drop_first(), k - 1);
    }
}

/// How a whole invocation ended.
pub enum RunStatus {
    /// Blocks were selected and every one rendered.
    Success,
    /// No diagram block matched the document or the requested index.
    NoBlocks,
    /// Reading input, rendering, or presenting failed.
    Failed,
}

/// The process exit code for an ended invocation: 0 on success, 2 when no
/// diagram block matched, 1 for any other failure.
pub fn exit_code(status: &RunStatus) -> (c: i32)
    ensures
        c == (match status {
            RunStatus::Success => 0int,
            RunStatus::NoBlocks => 2int,
            RunStatus::Failed => 1int,
        }),
{
    match status {
        RunStatus::Success => 0,
        RunStatus::NoBlocks => 2,
        RunStatus::Failed => 1,
    }
}

} // verus!
