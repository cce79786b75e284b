use vstd::prelude::*;

use crate::text::{join_str, str_eq};

verus! {

/// What the command line asks for.
#[derive(Debug)]
pub struct LaunchOptions {
    pub media_dir: Option<String>,
    /// Which argument the folder is, so that a caller can take it as given.
    pub media_dir_index: Option<usize>,
    pub demo: bool,
    pub notices: Vec<String>,
    pub show_help: bool,
}

/// The launch options by their plain values.
pub struct LaunchView {
    pub media_dir: Option<Seq<char>>,
    pub media_dir_index: Option<int>,
    pub demo: bool,
    pub notices: Seq<Seq<char>>,
    pub show_help: bool,
}

impl View for LaunchOptions {
    type V = LaunchView;

    open spec fn view(&self) -> LaunchView {
        LaunchView {
            media_dir: match self.media_dir {
                Some(dir) => Some(dir@),
                None => None,
            },
            media_dir_index: match self.media_dir_index {
                Some(j) => Some(j as int),
                None => None,
            },
            demo: self.demo,
            notices: self.notices@.map_values(|n: String| n@),
            show_help: self.show_help,
        }
    }
}

/// The notice for `--media-dir` given last, with no folder after it.
pub open spec fn missing_folder_notice() -> Seq<char> {
    "--media-dir の後にフォルダを指定してください"@
}

/// The notice for an argument that is not understood.
pub open spec fn unknown_argument_notice(argument: Seq<char>) -> Seq<char> {
    "未対応の引数です: "@ + argument
}

/// The options after reading the arguments from index `i` on, having read `so_far`
/// before. `--media-dir` takes the next argument as the folder, and remembers where it
/// stands; the last one given wins.
pub open spec fn parse_from(args: Seq<Seq<char>>, i: int, so_far: LaunchView) -> LaunchView
    decreases args.len() - i,
{
    if i < 0 || i >= args.len() {
        so_far
    } else {
        let argument = args[i];
        if argument == "--media-dir"@ {
            if i + 1 < args.len() {
                parse_from(
                    args,
                    i + 2,
                    LaunchView {
                        media_dir: Some(args[i + 1]),
                        media_dir_index: Some(i + 1),
                        ..so_far
                    },
                )
            } else {
                parse_from(
                    args,
                    i + 1,
                    LaunchView { notices: so_far.notices.push(missing_folder_notice()), ..so_far },
                )
            }
        } else if argument == "--demo"@ {
            parse_from(args, i + 1, LaunchView { demo: true, ..so_far })
        } else if argument == "--help"@ || argument == "-h"@ {
            parse_from(args, i + 1, LaunchView { show_help: true, ..so_far })
        } else {
            parse_from(
                args,
                i + 1,
                LaunchView {
                    notices: so_far.notices.push(unknown_argument_notice(argument)),
                    ..so_far
                },
            )
        }
    }
}

/// The options that the arguments (the program's name left out) ask for.
pub open spec fn parsed(args: Seq<Seq<char>>) -> LaunchView {
    parse_from(
        args,
        0,
        LaunchView {
            media_dir: None,
            media_dir_index: None,
            demo: false,
            notices: Seq::empty(),
            show_help: false,
        },
    )
}

/// The folder's index, when there is one, is that of an argument that holds the folder.
pub open spec fn folder_index_fits(args: Seq<Seq<char>>, v: LaunchView) -> bool {
    &&& (v.media_dir is Some <==> v.media_dir_index is Some)
    &&& v.media_dir_index is Some ==> 0 <= v.media_dir_index->0 < args.len() && v.media_dir
        == Some(args[v.media_dir_index->0])
}

/// Reading on from any point keeps the folder's index pointing at the folder.
pub proof fn lemma_folder_index_fits(args: Seq<Seq<char>>, i: int, so_far: LaunchView)
    requires
        folder_index_fits(args, so_far),
    ensures
        folder_index_fits(args, parse_from(args, i, so_far)),
    decreases args.len() - i,
{
    if 0 <= i < args.len() {
        let argument = args[i];
        if argument == "--media-dir"@ {
            if i + 1 < args.len() {
                lemma_folder_index_fits(
                    args,
                    i + 2,
                    LaunchView {
                        media_dir: Some(args[i + 1]),
                        media_dir_index: Some(i + 1),
                        ..so_far
                    },
                );
            } else {
                lemma_folder_index_fits(
                    args,
                    i + 1,
                    LaunchView { notices: so_far.notices.push(missing_folder_notice()), ..so_far },
                );
            }
        } else if argument == "--demo"@ {
            lemma_folder_index_fits(args, i + 1, LaunchView { demo: true, ..so_far });
        } else if argument == "--help"@ || argument == "-h"@ {
            lemma_folder_index_fits(args, i + 1, LaunchView { show_help: true, ..so_far });
        } else {
            lemma_folder_index_fits(
                args,
                i + 1,
                LaunchView {
                    notices: so_far.notices.push(unknown_argument_notice(argument)),
                    ..so_far
                },
            );
        }
    }
}

/// Argument `i` is the folder of a `--media-dir` option: it follows a `--media-dir` that
/// is not itself such a folder.
pub open spec fn is_folder_arg(args: Seq<Seq<char>>, i: int) -> bool
    decreases i,
{
    if i <= 0 {
        false
    } else {
        args[i - 1] == "--media-dir"@ && !is_folder_arg(args, i - 1)
    }
}

/// Some argument from `i` on that is not a folder is `--demo`.
pub open spec fn demo_asked_from(args: Seq<Seq<char>>, i: int) -> bool {
    exists|j: int| i <= j < args.len() && args[j] == "--demo"@ && !is_folder_arg(args, j)
}

proof fn lemma_demo_from(args: Seq<Seq<char>>, i: int, so_far: LaunchView)
    requires
        0 <= i <= args.len(),
        i < args.len() ==> !is_folder_arg(args, i),
    ensures
        parse_from(args, i, so_far).demo == (so_far.demo || demo_asked_from(args, i)),
    decreases args.len() - i,
{
    if i < args.len() {
        let argument = args[i];
        if argument == "--media-dir"@ {
            assert(args[i] != "--demo"@) by {
                reveal_strlit("--media-dir");
                reveal_strlit("--demo");
            }
            if i + 1 < args.len() {
                assert(is_folder_arg(args, i + 1));
                if i + 2 < args.len() {
                    assert(!is_folder_arg(args, i + 2));
                }
                lemma_demo_from(
                    args,
                    i + 2,
                    LaunchView {
                        media_dir: Some(args[i + 1]),
                        media_dir_index: Some(i + 1),
                        ..so_far
                    },
                );
                assert(demo_asked_from(args, i) == demo_asked_from(args, i + 2)) by {
                    if demo_asked_from(args, i) {
                        let j = choose|j: int|
                            i <= j < args.len() && args[j] == "--demo"@ && !is_folder_arg(args, j);
                        assert(j != i && j != i + 1);
                    }
                }
            } else {
                lemma_demo_from(
                    args,
                    i + 1,
                    LaunchView { notices: so_far.notices.push(missing_folder_notice()), ..so_far },
                );
                assert(demo_asked_from(args, i) == demo_asked_from(args, i + 1)) by {
                    if demo_asked_from(args, i) {
                        let j = choose|j: int|
                            i <= j < args.len() && args[j] == "--demo"@ && !is_folder_arg(args, j);
                        assert(j != i);
                    }
                }
            }
        } else {
            if i + 1 < args.len() {
                assert(!is_folder_arg(args, i + 1));
            }
            let next = if argument == "--demo"@ {
                LaunchView { demo: true, ..so_far }
            } else if argument == "--help"@ || argument == "-h"@ {
                LaunchView { show_help: true, ..so_far }
            } else {
                LaunchView {
                    notices: so_far.notices.push(unknown_argument_notice(argument)),
                    ..so_far
                }
            };
            assert(parse_from(args, i, so_far) == parse_from(args, i + 1, next));
            lemma_demo_from(args, i + 1, next);
            assert(demo_asked_from(args, i) == (argument == "--demo"@ || demo_asked_from(
                args,
                i + 1,
            ))) by {
                if demo_asked_from(args, i) {
                    let j = choose|j: int|
                        i <= j < args.len() && args[j] == "--demo"@ && !is_folder_arg(args, j);
                    if j > i {
                        assert(demo_asked_from(args, i + 1));
                    }
                }
                if argument == "--demo"@ {
                    assert(!is_folder_arg(args, i));
                }
            }
        }
    }
}

/// The demo flag is set exactly when some argument that is not the folder of a
/// `--media-dir` is `--demo`, wherever it stands.
pub proof fn lemma_demo_wherever_given(args: Seq<Seq<char>>)
    ensures
        parsed(args).demo == (exists|j: int|
            0 <= j < args.len() && args[j] == "--demo"@ && !is_folder_arg(args, j)),
{
    lemma_demo_from(
        args,
        0,
        LaunchView {
            media_dir: None,
            media_dir_index: None,
            demo: false,
            notices: Seq::empty(),
            show_help: false,
        },
    );
}

/// Reads the command-line arguments, the program's name left out.
pub fn parse_arguments(args: &[String]) -> (options: LaunchOptions)
    ensures
        options@ == parsed(args@.map_values(|a: String| a@)),
        folder_index_fits(args@.map_values(|a: String| a@), options@),
{
    let ghost views = args@.map_values(|a: String| a@);
    proof {
        lemma_folder_index_fits(
            views,
            0,
            LaunchView {
                media_dir: None,
                media_dir_index: None,
                demo: false,
                notices: Seq::empty(),
                show_help: false,
            },
        );
    }
    let mut options = LaunchOptions {
        media_dir: None,
        media_dir_index: None,
        demo: false,
        notices: Vec::new(),
        show_help: false,
    };
    let mut i: usize = 0;
    assert(options@.notices =~= Seq::<Seq<char>>::empty());
    while i < args.len()
        invariant
            i <= args@.len(),
            views == args@.map_values(|a: String| a@),
            parse_from(views, i as int, options@) == parsed(views),
        decreases args.len() - i,
    {
        let argument = args[i].as_str();
        assert(views[i as int] == argument@);
        let ghost before = options@;
        if str_eq(argument, "--media-dir") {
            if i + 1 < args.len() {
                assert(views[i + 1] == args@[i + 1]@);
                options.media_dir = Some(args[i + 1].clone());
                options.media_dir_index = Some(i + 1);
                i = i + 2;
            } else {
                options.notices.push("--media-dir の後にフォルダを指定してください".to_owned());
                assert(options@.notices =~= before.notices.push(missing_folder_notice()));
                i = i + 1;
            }
        } else if str_eq(argument, "--demo") {
            options.demo = true;
            i = i + 1;
        } else if str_eq(argument, "--help") || str_eq(argument, "-h") {
            options.show_help = true;
            i = i + 1;
        } else {
            let notice = join_str("未対応の引数です: ", argument);
            options.notices.push(notice);
            assert(options@.notices =~= before.notices.push(unknown_argument_notice(argument@)));
            i = i + 1;
        }
    }
    options
}

/// How to start the program.
pub fn usage() -> (text: &'static str)
    ensures
        text@ == "Usage: cargo run --release -- --media-dir <folder> [--demo]"@,
{
    "Usage: cargo run --release -- --media-dir <folder> [--demo]"
}

} // verus!
