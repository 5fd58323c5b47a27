# OpenMeetNote

A meeting recorder that has to show its work: every fact in a summary carries a citation that the
program itself has held against the transcript.

- `src/` is the library. Its functions are executable Rust with contracts that Verus proves.
- `tests/` runs the library on concrete meetings, documents and answers.
- `app/` is the program around it: the database, the command-line agents, the WebSocket, the
  audio devices, and the commands that come in and the events that go out, line by line as JSON.

## What the library promises

- A fact stands in a document only with a citation, and every citation of every block leads to
  words that stand in the evidence, in a version from before the cursor of the summary
  (`generation::every_fact_is_traceable`).
- What a meeting has recorded keeps its order and its numbers, whatever happens
  (`session_laws::sessions_stay_sound`); a refused command changes nothing; what the user has
  written outlives whatever a transcription service says later.
- A summary covers what had happened when it was asked for, and recording goes on meanwhile.
- Text in a document, a transcript or a title never becomes markup
  (`render_laws::text_never_becomes_markup`).
- Each section stands in the page once and in its order, and every link of the table of contents
  has one place to lead to (`page_laws`). Where a model wrote a decision makes no difference
  (`order_laws::a_decision_may_stand_anywhere`).
- A block that does not meet the rules is asked for again, and the first new form that does is
  kept (`agent::the_first_valid_redraft_is_kept`).
- What an untrusted text says stays inside its fence in a prompt
  (`cli_planner::untrusted_text_stays_inside_the_fence`).

## Running

The program reads one command per line from its standard input, such as
`{"id":1,"command":"start_meeting","args":{}}`, and answers with one line. Batches of events come
on the channel `session://events`. `agents.json` in the data directory names the two command-line
agents that can write summaries: a list of `{"id", "label", "exe"}`.
