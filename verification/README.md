# beatport

Finding tracks in the Beatport catalogue and describing them for tagging.

The library, under `src/`, is verified with Verus. It sends nothing itself: it says which request
to make, takes what came back, and says what to do next.

| module | what it holds |
| --- | --- |
| `text`, `number`, `distinct` | texts, decimal integers, and sets of texts |
| `outside` | the calls into `regex`, `chrono` and `strsim` |
| `catalog`, `track` | what the service says of a track, and its description for tagging |
| `title`, `mix`, `artists` | search queries, titles, mix names and artist names, and how they agree |
| `matching` | the matches of one page of results: candidates, accuracies, order |
| `finder` | the search for a file's tracks, step by step |
| `session` | the access token, the requests to send, and what a reply comes to |
| `album` | albums, and completing what is known of a track |
| `builder` | what the platform says of itself, and the session that its sources share |

Functions whose names begin with `law_` state what holds of the library as a whole.

`app/` sends the requests, does the floating-point arithmetic of accuracies, and implements the
tagger's interfaces, for which it needs the tagger's crates `onetagger_tag` and
`onetagger_tagger`. `tests/` runs the library.
