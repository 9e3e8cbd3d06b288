# raggust

A question-answering tool over a novel: it reads the novel from an EPUB file,
cuts its text into overlapping chunks, stores their embeddings in an in-memory
vector database, and answers questions with a language model prompted with the
chunks nearest to each question.

- `src/` is the verified library (Verus): chunking (`chunk`), whitespace
  trimming and decimal rendering (`text`), EPUB metadata and chapter
  paragraphs (`parse`), prompt building (`rag`), database query text and
  values (`db`) and the reading of the user's input lines (`session`).
- `app/` is the program around it: EPUB file reading, the libsql database,
  the HTTP calls to ollama, floating-point scores and the terminal loop.
- `tests/` runs the library on concrete inputs.
